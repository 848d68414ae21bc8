use invaders::leaderboard::{merge_leaderboard_entries, prep_leaderboard_entries, LeaderboardEntry};

fn entry(id: &str, rank: u32, name: &str, score: i32, local: bool) -> LeaderboardEntry {
    LeaderboardEntry { id: id.to_string(), rank, name: name.to_string(), score, local }
}

fn board() -> Vec<LeaderboardEntry> {
    vec![
        entry("0", 1, "Jessica", 300, false),
        entry("1", 2, "Zayden", 130, false),
        entry("2", 3, "Esme", 20, false),
    ]
}

fn names(v: &Vec<LeaderboardEntry>) -> Vec<String> {
    v.iter().map(|e| e.name.clone()).collect()
}

#[test]
fn prep_adds_local_player_in_order() {
    let mut v = board();
    prep_leaderboard_entries(&mut v, "Justin", 150);
    assert_eq!(names(&v), vec!["Jessica", "Justin", "Zayden", "Esme"]);
    let local = &v[1];
    assert_eq!(local.id, "local");
    assert_eq!(local.rank, 0);
    assert_eq!(local.score, 150);
    assert!(local.local);
}

#[test]
fn prep_updates_existing_local_entry() {
    let mut v = board();
    prep_leaderboard_entries(&mut v, "Justin", 10);
    assert_eq!(names(&v), vec!["Jessica", "Zayden", "Esme", "Justin"]);
    prep_leaderboard_entries(&mut v, "Someone", 500);
    assert_eq!(v.len(), 4);
    assert_eq!(names(&v), vec!["Justin", "Jessica", "Zayden", "Esme"]);
    assert_eq!(v[0].score, 500);
}

#[test]
fn prep_keeps_order_of_equal_scores() {
    let mut v = vec![
        entry("a", 1, "A", 50, false),
        entry("b", 2, "B", 70, false),
        entry("c", 3, "C", 50, false),
        entry("d", 4, "D", 70, false),
    ];
    prep_leaderboard_entries(&mut v, "L", 50);
    assert_eq!(names(&v), vec!["B", "D", "A", "C", "L"]);
}

#[test]
fn prep_on_empty_board() {
    let mut v = vec![];
    prep_leaderboard_entries(&mut v, "Justin", 0);
    assert_eq!(v.len(), 1);
    assert_eq!(v[0].name, "Justin");
    assert!(v[0].local);
}

#[test]
fn merge_skips_known_ids() {
    let mut v = vec![entry("1", 9, "Old", 5, false)];
    let mut incoming = board();
    incoming.push(entry("0", 4, "Again", 1, false));
    merge_leaderboard_entries(&mut v, incoming);
    assert_eq!(names(&v), vec!["Old", "Jessica", "Esme"]);
    assert_eq!(v[0].score, 5);
}

#[test]
fn merge_into_empty_board() {
    let mut v = vec![];
    merge_leaderboard_entries(&mut v, board());
    assert_eq!(names(&v), vec!["Jessica", "Zayden", "Esme"]);
    merge_leaderboard_entries(&mut v, board());
    assert_eq!(v.len(), 3);
}

#[test]
fn prep_twice_changes_nothing() {
    let mut once = board();
    prep_leaderboard_entries(&mut once, "Justin", 150);
    let mut twice = board();
    prep_leaderboard_entries(&mut twice, "Justin", 150);
    prep_leaderboard_entries(&mut twice, "Justin", 150);
    assert!(once == twice);
    let mut with_local = board();
    with_local.push(entry("9", 7, "Me", 5, true));
    let mut a = with_local;
    prep_leaderboard_entries(&mut a, "Me", 200);
    let mut b = vec![];
    for e in &a {
        b.push(entry(&e.id, e.rank, &e.name, e.score, e.local));
    }
    prep_leaderboard_entries(&mut b, "Me", 200);
    assert!(a == b);
    assert!(a[0] > a[1] || a[0] < a[1] || a[0] == a[1]);
}
