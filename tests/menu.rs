use tetris::{Highscores, MenuAction, MenuScreen, Settings, User, HIGHSCORE_CAP};

fn user(name: &str, score: u32) -> User {
    let mut u = User::add_user(name.to_string());
    u.score = score;
    u
}

fn table(h: &Highscores) -> Vec<(String, u32)> {
    h.users().iter().map(|u| (u.name().clone(), u.score)).collect()
}

#[test]
fn add_user_starts_at_zero() {
    let u = User::add_user("Carl".to_string());
    assert_eq!(u.name(), "Carl");
    assert_eq!(u.score, 0);
}

#[test]
fn append_keeps_highest_first() {
    let mut h = Highscores::new();
    h.append(user("Carl", 20));
    let r = h.append(user("Tore", 50));
    assert_eq!(table(&r), vec![("Tore".to_string(), 50), ("Carl".to_string(), 20)]);
    assert_eq!(table(&h), table(&r));
}

#[test]
fn append_puts_new_entry_ahead_of_equal_scores() {
    let mut h = Highscores::new();
    h.append(user("a", 10));
    h.append(user("b", 10));
    assert_eq!(table(&h), vec![("b".to_string(), 10), ("a".to_string(), 10)]);
}

#[test]
fn append_to_full_table_drops_lowest() {
    let mut h = Highscores::new();
    for i in 0..10u32 {
        h.append(user(&format!("u{}", i), 10 * (i + 1)));
    }
    assert_eq!(table(&h).len(), HIGHSCORE_CAP);
    h.append(user("new", 55));
    let t = table(&h);
    assert_eq!(t.len(), HIGHSCORE_CAP);
    assert_eq!(t[0], ("u9".to_string(), 100));
    assert_eq!(t[5], ("new".to_string(), 55));
    assert_eq!(t[9], ("u1".to_string(), 20));
    assert!(!t.contains(&("u0".to_string(), 10)));
}

#[test]
fn append_low_score_to_full_table_changes_nothing() {
    let mut h = Highscores::new();
    for i in 0..10u32 {
        h.append(user(&format!("u{}", i), 10 * (i + 1)));
    }
    let before = table(&h);
    h.append(user("low", 5));
    assert_eq!(table(&h), before);
}

#[test]
fn settings_keep_their_values() {
    let mut s = Settings::new(4, 'b');
    assert_eq!(s.get_difficulty(), 4);
    assert_eq!(s.get_color(), 'b');
    s.set_difficulty(7);
    s.set_color('r');
    assert_eq!((s.get_difficulty(), s.get_color()), (7, 'r'));
}

#[test]
fn main_menu_keys() {
    let mut s = Settings::new(4, 'b');
    assert_eq!(s.menu_step(MenuScreen::Main, '1'), (MenuScreen::Play, MenuAction::AskName));
    assert_eq!(s.menu_step(MenuScreen::Main, '2'), (MenuScreen::Options, MenuAction::ShowOptions));
    assert_eq!(s.menu_step(MenuScreen::Main, '3'), (MenuScreen::Scores, MenuAction::ShowScores));
    assert_eq!(s.menu_step(MenuScreen::Main, 'x'), (MenuScreen::Main, MenuAction::Stay));
    assert_eq!((s.get_difficulty(), s.get_color()), (4, 'b'));
}

#[test]
fn options_menu_sets_difficulty_and_color() {
    let mut s = Settings::new(4, 'b');
    assert_eq!(s.menu_step(MenuScreen::Options, '1'), (MenuScreen::Difficulty, MenuAction::AskDifficulty));
    assert_eq!(s.menu_step(MenuScreen::Difficulty, 'k'), (MenuScreen::Difficulty, MenuAction::DigitNeeded));
    assert_eq!(s.get_difficulty(), 4);
    assert_eq!(s.menu_step(MenuScreen::Difficulty, '7'), (MenuScreen::Options, MenuAction::ShowOptions));
    assert_eq!(s.get_difficulty(), 7);
    assert_eq!(s.menu_step(MenuScreen::Options, '2'), (MenuScreen::Color, MenuAction::AskColor));
    assert_eq!(s.menu_step(MenuScreen::Color, 'g'), (MenuScreen::Color, MenuAction::Stay));
    assert_eq!(s.menu_step(MenuScreen::Color, 'r'), (MenuScreen::Options, MenuAction::ShowOptions));
    assert_eq!(s.get_color(), 'r');
    assert_eq!(s.menu_step(MenuScreen::Options, '3'), (MenuScreen::Main, MenuAction::ShowMain));
}

#[test]
fn scores_screen_returns_on_any_key() {
    let mut s = Settings::new(1, 'r');
    assert_eq!(s.menu_step(MenuScreen::Scores, 'z'), (MenuScreen::Main, MenuAction::ShowMain));
}

#[test]
fn difficulty_zero_is_refused() {
    let mut s = Settings::new(4, 'b');
    assert_eq!(s.menu_step(MenuScreen::Difficulty, '0'), (MenuScreen::Difficulty, MenuAction::DigitNeeded));
    assert_eq!(s.get_difficulty(), 4);
    assert_eq!(s.menu_step(MenuScreen::Difficulty, '1'), (MenuScreen::Options, MenuAction::ShowOptions));
    assert_eq!(s.get_difficulty(), 1);
    assert_eq!(s.menu_step(MenuScreen::Difficulty, '9'), (MenuScreen::Options, MenuAction::ShowOptions));
    assert_eq!(s.get_difficulty(), 9);
}

#[test]
fn user_new_keeps_name_and_score() {
    let mut u = User::new("Tore".to_string(), 50);
    assert_eq!((u.name().as_str(), u.get_score()), ("Tore", 50));
    u.set_score(70);
    assert_eq!(u.score, 70);
}
