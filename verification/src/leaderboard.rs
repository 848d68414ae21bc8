use vstd::prelude::*;

verus! {

/// One row of the leaderboard: who scored what, at which rank, and
/// whether it is the player on this machine.
#[derive(Debug, PartialEq, PartialOrd)]
pub struct LeaderboardEntry {
    pub id: String,
    pub rank: u32,
    pub name: String,
    pub score: i32,
    pub local: bool,
}

/// What a leaderboard entry holds, with its strings as sequences of characters.
pub ghost struct EntryView {
    pub id: Seq<char>,
    pub rank: u32,
    pub name: Seq<char>,
    pub score: i32,
    pub local: bool,
}

impl View for LeaderboardEntry {
    type V = EntryView;

    open spec fn view(&self) -> EntryView {
        EntryView { id: self.id@, rank: self.rank, name: self.name@, score: self.score, local: self.local }
    }
}

/// The views of the entries of `s`, in order.
pub open spec fn views(s: Seq<LeaderboardEntry>) -> Seq<EntryView> {
    s.map_values(|e: LeaderboardEntry| e@)
}

/// Whether some entry of `s` has the id `id`.
pub open spec fn has_id(s: Seq<EntryView>, id: Seq<char>) -> bool {
    exists|k: int| 0 <= k < s.len() && #[trigger] s[k].id == id
}

/// The entries of `entries` followed by those of `incoming` whose id is
/// not yet on the board, taken in order, so that of several incoming
/// entries with one id only the first is added.
pub open spec fn merged(entries: Seq<EntryView>, incoming: Seq<EntryView>) -> Seq<EntryView>
    decreases incoming.len(),
{
    if incoming.len() == 0 {
        entries
    } else {
        let before = merged(entries, incoming.drop_last());
        if has_id(before, incoming.last().id) {
            before
        } else {
            before.push(incoming.last())
        }
    }
}

/// The index of the first entry of `s`, below `n`, that is the local player's.
pub open spec fn first_local_below(s: Seq<EntryView>, n: int) -> Option<int>
    decreases n,
{
    if n <= 0 {
        None
    } else {
        match first_local_below(s, n - 1) {
            Some(k) => Some(k),
            None => if s[n - 1].local { Some(n - 1) } else { None },
        }
    }
}

/// The index of the first entry of `s` that is the local player's.
pub open spec fn first_local(s: Seq<EntryView>) -> Option<int> {
    first_local_below(s, s.len() as int)
}

/// The entry that stands for the local player when the board has none.
pub open spec fn local_entry(name: Seq<char>, score: i32) -> EntryView {
    EntryView { id: "local"@, rank: 0, name, score, local: true }
}

/// The board with the local player's score in it: the first local entry
/// takes the score, or, where there is none, a local entry is added at
/// the end.
pub open spec fn with_local(s: Seq<EntryView>, name: Seq<char>, score: i32) -> Seq<EntryView> {
    match first_local(s) {
        Some(k) => s.update(k, EntryView { score: score, ..s[k] }),
        None => s.push(local_entry(name, score)),
    }
}

/// The entries of `s` with score `sc`, in the order of `s`.
pub open spec fn with_score(s: Seq<EntryView>, sc: i32) -> Seq<EntryView>
    decreases s.len(),
{
    if s.len() == 0 {
        Seq::empty()
    } else if s.last().score == sc {
        with_score(s.drop_last(), sc).push(s.last())
    } else {
        with_score(s.drop_last(), sc)
    }
}

/// No entry of `s` has a higher score than one before it.
pub open spec fn sorted_by_score_desc(s: Seq<EntryView>) -> bool {
    forall|i: int, j: int| 0 <= i < j < s.len() ==> #[trigger] s[i].score >= #[trigger] s[j].score
}

/// `out` is `inp` sorted by descending score, with entries of equal score
/// in the order they had in `inp`.
pub open spec fn stable_sorted_by_score(out: Seq<EntryView>, inp: Seq<EntryView>) -> bool {
    &&& sorted_by_score_desc(out)
    &&& forall|sc: i32| #[trigger] with_score(out, sc) == with_score(inp, sc)
}

proof fn lemma_with_score_add(a: Seq<EntryView>, b: Seq<EntryView>, sc: i32)
    ensures
        with_score(a + b, sc) == with_score(a, sc) + with_score(b, sc),
    decreases b.len(),
{
    if b.len() == 0 {
        assert(a + b == a);
    } else {
        assert((a + b).drop_last() == a + b.drop_last());
        lemma_with_score_add(a, b.drop_last(), sc);
    }
}

proof fn lemma_with_score_none(s: Seq<EntryView>, sc: i32)
    requires
        forall|k: int| 0 <= k < s.len() ==> s[k].score != sc,
    ensures
        with_score(s, sc) == Seq::<EntryView>::empty(),
    decreases s.len(),
{
    if s.len() > 0 {
        lemma_with_score_none(s.drop_last(), sc);
    }
}

proof fn lemma_with_score_single(x: EntryView, sc: i32)
    ensures
        with_score(seq![x], sc) == if x.score == sc { seq![x] } else { Seq::<EntryView>::empty() },
{
    assert(seq![x].drop_last() == Seq::<EntryView>::empty());
    assert(with_score(Seq::<EntryView>::empty(), sc) == Seq::<EntryView>::empty());
    assert(seq![x].last() == x);
}

proof fn lemma_first_local_below(s: Seq<EntryView>, n: int)
    requires
        n <= s.len(),
    ensures
        match first_local_below(s, n) {
            Some(k) => 0 <= k < n && s[k].local && forall|j: int| 0 <= j < k ==> !#[trigger] s[j].local,
            None => forall|j: int| 0 <= j < n ==> !#[trigger] s[j].local,
        },
    decreases n,
{
    if n > 0 {
        lemma_first_local_below(s, n - 1);
    }
}

/// Inserting `x` where every entry before it scores at least as much and
/// every entry after it scores less keeps a sorted board sorted, and adds
/// `x` at the end of the entries with its score.
proof fn lemma_insert_sorted(s: Seq<EntryView>, pos: int, x: EntryView)
    requires
        0 <= pos <= s.len(),
        sorted_by_score_desc(s),
        forall|k: int| 0 <= k < pos ==> s[k].score >= x.score,
        forall|k: int| pos <= k < s.len() ==> s[k].score < x.score,
    ensures
        sorted_by_score_desc(s.insert(pos, x)),
        forall|sc: i32| #[trigger] with_score(s.insert(pos, x), sc) == with_score(s.push(x), sc),
{
    let t = s.insert(pos, x);
    assert(s.push(x).drop_last() == s);
    assert(s.push(x).last() == x);
    assert forall|i: int, j: int| 0 <= i < j < t.len() implies #[trigger] t[i].score >= #[trigger] t[j].score by {
        if j < pos {
        } else if j == pos {
        } else if i < pos {
        } else if i == pos {
        } else {
            assert(t[i] == s[i - 1] && t[j] == s[j - 1]);
        }
    }
    assert forall|sc: i32| #[trigger] with_score(s.insert(pos, x), sc) == with_score(s.push(x), sc) by {
        let a = s.take(pos);
        let b = s.skip(pos);
        assert(t == a + seq![x] + b);
        assert(s == a + b);
        lemma_with_score_add(a + seq![x], b, sc);
        lemma_with_score_add(a, seq![x], sc);
        lemma_with_score_add(a, b, sc);
        lemma_with_score_single(x, sc);
        if x.score == sc {
            lemma_with_score_none(b, sc);
            assert(with_score(b, sc) == Seq::<EntryView>::empty());
            assert(with_score(s, sc) == with_score(a, sc));
            assert(with_score(a, sc) + seq![x] == with_score(a, sc).push(x));
        } else {
            assert(with_score(a, sc) + Seq::<EntryView>::empty() == with_score(a, sc));
        }
    }
}

/// Adds to `entries` each entry of `incoming` whose id is not on the board
/// yet, in order; an entry whose id is already there is left as it is.
pub fn merge_leaderboard_entries(entries: &mut Vec<LeaderboardEntry>, incoming: Vec<LeaderboardEntry>)
    ensures
        views(final(entries)@) == merged(views(old(entries)@), views(incoming@)),
{
    let ghost start = views(entries@);
    let ghost all = views(incoming@);
    let mut incoming = incoming;
    let total = incoming.len();
    let mut i: usize = 0;
    while incoming.len() > 0
        invariant
            total == all.len(),
            i + incoming@.len() == all.len(),
            views(incoming@) == all.skip(i as int),
            views(entries@) == merged(start, all.take(i as int)),
        decreases incoming@.len(),
    {
        let ghost inc_before = incoming@;
        let item = incoming.remove(0);
        proof {
            assert(all.take(i + 1).drop_last() == all.take(i as int));
            assert(all.take(i + 1).last() == all[i as int]);
            assert(views(inc_before)[0] == item@);
            assert(all.skip(i as int)[0] == item@);
            assert forall|k: int| 0 <= k < views(incoming@).len() implies views(incoming@)[k] == all.skip(i + 1)[k] by {
                assert(views(inc_before)[k + 1] == all.skip(i as int)[k + 1]);
            }
            assert(views(incoming@) =~= all.skip(i + 1));
        }
        let mut found = false;
        let mut j: usize = 0;
        while j < entries.len()
            invariant
                j <= entries@.len(),
                found == exists|k: int| 0 <= k < j && #[trigger] views(entries@)[k].id == item.id@,
            decreases entries@.len() - j,
        {
            assert(views(entries@)[j as int] == entries@[j as int]@);
            let same = entries[j].id == item.id;
            assert(same == (views(entries@)[j as int].id == item.id@));
            if same {
                found = true;
            }
            assert(found == exists|k: int| 0 <= k < j + 1 && #[trigger] views(entries@)[k].id == item.id@) by {
                if same {
                    assert(views(entries@)[j as int].id == item.id@);
                }
            }
            j = j + 1;
        }
        let ghost before = entries@;
        if !found {
            entries.push(item);
            assert(views(entries@) == views(before).push(item@));
        }
        i = i + 1;
    }
    assert(all.take(all.len() as int) == all);
}

proof fn lemma_with_score_push_congruent(a: Seq<EntryView>, b: Seq<EntryView>, x: EntryView)
    requires
        forall|sc: i32| #[trigger] with_score(a, sc) == with_score(b, sc),
    ensures
        forall|sc: i32| #[trigger] with_score(a.push(x), sc) == with_score(b.push(x), sc),
{
    assert(a.push(x).drop_last() == a);
    assert(b.push(x).drop_last() == b);
    assert forall|sc: i32| #[trigger] with_score(a.push(x), sc) == with_score(b.push(x), sc) by {
        assert(with_score(a, sc) == with_score(b, sc));
    }
}

/// Sorts the board by descending score; entries with equal scores keep
/// the order they had.
fn sort_by_score_desc(entries: &mut Vec<LeaderboardEntry>)
    ensures
        stable_sorted_by_score(views(final(entries)@), views(old(entries)@)),
{
    let ghost all = views(entries@);
    let total = entries.len();
    let mut sorted: Vec<LeaderboardEntry> = Vec::new();
    let mut i: usize = 0;
    assert(all.take(0) == Seq::<EntryView>::empty());
    while entries.len() > 0
        invariant
            total == all.len(),
            i + entries@.len() == all.len(),
            views(entries@) == all.skip(i as int),
            sorted_by_score_desc(views(sorted@)),
            forall|sc: i32| #[trigger] with_score(views(sorted@), sc) == with_score(all.take(i as int), sc),
        decreases entries@.len(),
    {
        let ghost rest = entries@;
        let e = entries.remove(0);
        proof {
            assert(views(rest)[0] == e@);
            assert(all.skip(i as int)[0] == e@);
            assert forall|k: int| 0 <= k < views(entries@).len() implies views(entries@)[k] == all.skip(i + 1)[k] by {
                assert(views(rest)[k + 1] == all.skip(i as int)[k + 1]);
            }
            assert(views(entries@) =~= all.skip(i + 1));
            assert(all.take(i + 1) == all.take(i as int).push(e@));
        }
        let mut pos: usize = 0;
        while pos < sorted.len() && sorted[pos].score >= e.score
            invariant
                pos <= sorted@.len(),
                forall|k: int| 0 <= k < pos ==> #[trigger] views(sorted@)[k].score >= e.score,
            decreases sorted@.len() - pos,
        {
            assert(views(sorted@)[pos as int] == sorted@[pos as int]@);
            pos = pos + 1;
        }
        let ghost s = views(sorted@);
        proof {
            if pos < sorted@.len() {
                assert(s[pos as int] == sorted@[pos as int]@);
                assert forall|k: int| pos <= k < s.len() implies s[k].score < e.score by {
                    if k > pos {
                        assert(s[pos as int].score >= s[k].score);
                    }
                }
            }
            lemma_insert_sorted(s, pos as int, e@);
        }
        sorted.insert(pos, e);
        proof {
            assert(views(sorted@) =~= s.insert(pos as int, e@));
            lemma_with_score_push_congruent(s, all.take(i as int), e@);
        }
        i = i + 1;
    }
    proof {
        assert(all.take(i as int) == all);
    }
    *entries = sorted;
}

/// Puts the local player on the board and sorts it: the first local entry
/// takes `local_score`, or, where the board has none, a local entry named
/// `local_name` with that score is added; then the board is sorted by
/// descending score, entries with equal scores keeping their order.
pub fn prep_leaderboard_entries(entries: &mut Vec<LeaderboardEntry>, local_name: &str, local_score: i32)
    ensures
        stable_sorted_by_score(views(final(entries)@), with_local(views(old(entries)@), local_name@, local_score)),
{
    let ghost start = views(entries@);
    let mut found: Option<usize> = None;
    let mut k: usize = 0;
    while k < entries.len()
        invariant_except_break
            found is None,
        invariant
            k <= entries@.len(),
            start == views(entries@),
            first_local_below(start, k as int) is None,
        ensures
            found matches Some(idx) ==> idx == k && k < start.len() && start[k as int].local
                && first_local_below(start, k as int) is None,
            found is None ==> k == start.len() && first_local_below(start, k as int) is None,
        decreases entries@.len() - k,
    {
        assert(start[k as int] == entries@[k as int]@);
        if entries[k].local {
            found = Some(k);
            break;
        }
        k = k + 1;
    }
    proof {
        lemma_first_local_below(start, start.len() as int);
        if found is None {
            assert(k == entries@.len());
        }
    }
    match found {
        Some(index) => {
            proof {
                assert(first_local_below(start, index + 1) == Some(index as int));
                lemma_first_local_below(start, index + 1);
                lemma_first_local_below(start, start.len() as int);
                assert(first_local(start) == Some(index as int));
            }
            let mut e = entries.remove(index);
            e.score = local_score;
            entries.insert(index, e);
            assert(views(entries@) =~= with_local(start, local_name@, local_score));
        },
        None => {
            let e = LeaderboardEntry {
                id: "local".to_owned(),
                rank: 0,
                name: local_name.to_owned(),
                score: local_score,
                local: true,
            };
            entries.push(e);
            assert(views(entries@) =~= with_local(start, local_name@, local_score));
        },
    }
    sort_by_score_desc(entries);
}

proof fn lemma_with_score_member(s: Seq<EntryView>, k: int)
    requires
        0 <= k < s.len(),
    ensures
        with_score(s, s[k].score).contains(s[k]),
    decreases s.len(),
{
    let sc = s[k].score;
    if k == s.len() - 1 {
        assert(with_score(s, sc).last() == s[k]);
    } else {
        lemma_with_score_member(s.drop_last(), k);
        let w = with_score(s.drop_last(), sc);
        let j = choose|j: int| 0 <= j < w.len() && w[j] == s[k];
        if s.last().score == sc {
            assert(with_score(s, sc)[j] == s[k]);
        }
    }
}

proof fn lemma_with_score_from(s: Seq<EntryView>, sc: i32, j: int)
    requires
        0 <= j < with_score(s, sc).len(),
    ensures
        s.contains(with_score(s, sc)[j]),
        with_score(s, sc)[j].score == sc,
    decreases s.len(),
{
    let w = with_score(s, sc);
    if s.len() > 0 {
        if s.last().score == sc && j == w.len() - 1 {
            assert(s[s.len() - 1] == w[j]);
        } else {
            lemma_with_score_from(s.drop_last(), sc, j);
            let i = choose|i: int| 0 <= i < s.drop_last().len() && s.drop_last()[i] == w[j];
            assert(s[i] == w[j]);
        }
    }
}

/// Every entry of a stably sorted board comes from the board it was sorted
/// from, and every entry of that board is on the sorted one.
pub proof fn lemma_sorted_keeps_entries(out: Seq<EntryView>, inp: Seq<EntryView>, k: int)
    requires
        stable_sorted_by_score(out, inp),
        0 <= k < inp.len(),
    ensures
        out.contains(inp[k]),
{
    let sc = inp[k].score;
    lemma_with_score_member(inp, k);
    assert(with_score(out, sc) == with_score(inp, sc));
    let w = with_score(inp, sc);
    let j = choose|j: int| 0 <= j < w.len() && w[j] == inp[k];
    lemma_with_score_from(out, sc, j);
}

/// After the board is prepared, the local player is on it with the score
/// just reached.
pub proof fn lemma_prep_puts_local_on_board(out: Seq<EntryView>, s: Seq<EntryView>, name: Seq<char>, score: i32)
    requires
        stable_sorted_by_score(out, with_local(s, name, score)),
    ensures
        exists|k: int| 0 <= k < out.len() && #[trigger] out[k].local && out[k].score == score,
{
    let w = with_local(s, name, score);
    lemma_first_local_below(s, s.len() as int);
    let idx = match first_local(s) {
        Some(k) => k,
        None => s.len() as int,
    };
    assert(w[idx].local && w[idx].score == score);
    lemma_sorted_keeps_entries(out, w, idx);
    let k = choose|k: int| 0 <= k < out.len() && out[k] == w[idx];
    assert(out[k].local);
}

/// Merging keeps the board as it was and adds at its end: the old entries
/// come first, in their order.
pub proof fn lemma_merge_keeps_board(entries: Seq<EntryView>, incoming: Seq<EntryView>)
    ensures
        merged(entries, incoming).len() >= entries.len(),
        merged(entries, incoming).take(entries.len() as int) == entries,
    decreases incoming.len(),
{
    if incoming.len() > 0 {
        lemma_merge_keeps_board(entries, incoming.drop_last());
        let before = merged(entries, incoming.drop_last());
        assert(before.push(incoming.last()).take(entries.len() as int) == before.take(entries.len() as int));
    }
}

/// After a merge every incoming id is on the board.
pub proof fn lemma_merge_has_every_id(entries: Seq<EntryView>, incoming: Seq<EntryView>, k: int)
    requires
        0 <= k < incoming.len(),
    ensures
        has_id(merged(entries, incoming), incoming[k].id),
    decreases incoming.len(),
{
    let before = merged(entries, incoming.drop_last());
    if k == incoming.len() - 1 {
        if !has_id(before, incoming.last().id) {
            let m = before.push(incoming.last());
            assert(m[before.len() as int].id == incoming[k].id);
        }
    } else {
        lemma_merge_has_every_id(entries, incoming.drop_last(), k);
        assert(incoming.drop_last()[k] == incoming[k]);
        if !has_id(before, incoming.last().id) {
            let m = before.push(incoming.last());
            let j = choose|j: int| 0 <= j < before.len() && #[trigger] before[j].id == incoming[k].id;
            assert(m[j].id == incoming[k].id);
        }
    }
}

/// No two entries of `s` share an id.
pub open spec fn ids_distinct(s: Seq<EntryView>) -> bool {
    forall|i: int, j: int| 0 <= i < j < s.len() ==> #[trigger] s[i].id != #[trigger] s[j].id
}

/// A merge never puts an id on the board twice: a board whose ids are
/// distinct keeps them distinct.
pub proof fn lemma_merge_keeps_ids_distinct(entries: Seq<EntryView>, incoming: Seq<EntryView>)
    requires
        ids_distinct(entries),
    ensures
        ids_distinct(merged(entries, incoming)),
    decreases incoming.len(),
{
    if incoming.len() > 0 {
        lemma_merge_keeps_ids_distinct(entries, incoming.drop_last());
        let before = merged(entries, incoming.drop_last());
        if !has_id(before, incoming.last().id) {
            let m = before.push(incoming.last());
            assert forall|i: int, j: int| 0 <= i < j < m.len() implies #[trigger] m[i].id != #[trigger] m[j].id by {
                if j == before.len() {
                    assert(m[i] == before[i]);
                } else {
                    assert(m[i] == before[i] && m[j] == before[j]);
                }
            }
        }
    }
}

proof fn lemma_sorted_determined(a: Seq<EntryView>, b: Seq<EntryView>)
    requires
        sorted_by_score_desc(a),
        sorted_by_score_desc(b),
        forall|sc: i32| #[trigger] with_score(a, sc) == with_score(b, sc),
    ensures
        a == b,
    decreases a.len() + b.len(),
{
    if a.len() == 0 && b.len() == 0 {
        assert(a =~= b);
    } else if a.len() == 0 {
        lemma_with_score_member(b, b.len() - 1);
        lemma_with_score_none(a, b.last().score);
        assert(with_score(a, b.last().score) == with_score(b, b.last().score));
    } else if b.len() == 0 {
        lemma_with_score_member(a, a.len() - 1);
        lemma_with_score_none(b, a.last().score);
        assert(with_score(a, a.last().score) == with_score(b, a.last().score));
    } else {
        let m1 = a.last().score;
        let m2 = b.last().score;
        lemma_with_score_member(a, a.len() - 1);
        lemma_with_score_member(b, b.len() - 1);
        assert(with_score(a, m1) == with_score(b, m1));
        assert(with_score(a, m2) == with_score(b, m2));
        let wa = with_score(b, m1);
        let ja = choose|j: int| 0 <= j < wa.len() && wa[j] == a.last();
        lemma_with_score_from(b, m1, ja);
        let ib = choose|i: int| 0 <= i < b.len() && b[i] == wa[ja];
        assert(b[ib].score >= b[b.len() - 1].score || ib == b.len() - 1);
        let wb = with_score(a, m2);
        let jb = choose|j: int| 0 <= j < wb.len() && wb[j] == b.last();
        lemma_with_score_from(a, m2, jb);
        let ia = choose|i: int| 0 <= i < a.len() && a[i] == wb[jb];
        assert(a[ia].score >= a[a.len() - 1].score || ia == a.len() - 1);
        assert(m1 == m2);
        let m = m1;
        assert(with_score(a, m) == with_score(a.drop_last(), m).push(a.last()));
        assert(with_score(b, m) == with_score(b.drop_last(), m).push(b.last()));
        assert(with_score(a, m).last() == a.last());
        assert(with_score(b, m).last() == b.last());
        assert(with_score(a.drop_last(), m) == with_score(a, m).drop_last());
        assert(with_score(b.drop_last(), m) == with_score(b, m).drop_last());
        assert forall|sc: i32| #[trigger] with_score(a.drop_last(), sc) == with_score(b.drop_last(), sc) by {
            assert(with_score(a, sc) == with_score(b, sc));
        }
        lemma_sorted_determined(a.drop_last(), b.drop_last());
        assert(a =~= b) by {
            assert(a == a.drop_last().push(a.last()));
            assert(b == b.drop_last().push(b.last()));
        }
    }
}

/// The order of a prepared board is fully determined: two boards that are
/// both the stable descending sort of the same board are the same board.
pub proof fn lemma_stable_sort_unique(a: Seq<EntryView>, b: Seq<EntryView>, inp: Seq<EntryView>)
    requires
        stable_sorted_by_score(a, inp),
        stable_sorted_by_score(b, inp),
    ensures
        a == b,
{
    assert forall|sc: i32| #[trigger] with_score(a, sc) == with_score(b, sc) by {
        assert(with_score(a, sc) == with_score(inp, sc));
        assert(with_score(b, sc) == with_score(inp, sc));
    }
    lemma_sorted_determined(a, b);
}

/// At most one entry of `s` is the local player's.
pub open spec fn at_most_one_local(s: Seq<EntryView>) -> bool {
    forall|i: int, j: int| 0 <= i < s.len() && 0 <= j < s.len() && #[trigger] s[i].local && #[trigger] s[j].local ==> i == j
}

proof fn lemma_sorted_from_input(out: Seq<EntryView>, inp: Seq<EntryView>, k: int)
    requires
        stable_sorted_by_score(out, inp),
        0 <= k < out.len(),
    ensures
        inp.contains(out[k]),
{
    let sc = out[k].score;
    lemma_with_score_member(out, k);
    assert(with_score(out, sc) == with_score(inp, sc));
    let w = with_score(out, sc);
    let j = choose|j: int| 0 <= j < w.len() && w[j] == out[k];
    lemma_with_score_from(inp, sc, j);
}

/// Preparing the board twice with the same name and score changes nothing,
/// as long as the board had at most one local entry: the second time the
/// local entry already has that score and the board is already in order.
pub proof fn lemma_prep_idempotent(s: Seq<EntryView>, name: Seq<char>, score: i32, once: Seq<EntryView>, twice: Seq<EntryView>)
    requires
        at_most_one_local(s),
        stable_sorted_by_score(once, with_local(s, name, score)),
        stable_sorted_by_score(twice, with_local(once, name, score)),
    ensures
        twice == once,
{
    let w = with_local(s, name, score);
    lemma_first_local_below(s, s.len() as int);
    let idx = match first_local(s) {
        Some(k) => k,
        None => s.len() as int,
    };
    // the board with the local score has exactly one local entry, at idx
    assert forall|i: int| 0 <= i < w.len() && #[trigger] w[i].local implies i == idx by {
        if i != idx {
            assert(w[i] == s[i]);
            if first_local(s) is Some {
                assert(s[idx].local);
            }
        }
    }
    assert(w[idx].local && w[idx].score == score);
    // every local entry of the sorted board is that entry
    assert forall|k: int| 0 <= k < once.len() && #[trigger] once[k].local implies once[k] == w[idx] by {
        lemma_sorted_from_input(once, w, k);
        let i = choose|i: int| 0 <= i < w.len() && w[i] == once[k];
        assert(w[i].local);
    }
    lemma_prep_puts_local_on_board(once, s, name, score);
    lemma_first_local_below(once, once.len() as int);
    match first_local(once) {
        Some(k) => {
            assert(once[k] == w[idx]);
            assert(with_local(once, name, score) =~= once);
        },
        None => {
            let k = choose|k: int| 0 <= k < once.len() && #[trigger] once[k].local && once[k].score == score;
            assert(!once[k].local);
        },
    }
    assert(stable_sorted_by_score(once, once));
    lemma_stable_sort_unique(twice, once, once);
}

} // verus!
