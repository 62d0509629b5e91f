//! Settings of a session, players, and the high-score table.

use vstd::prelude::*;

verus! {

/// How many entries the high-score table keeps.
pub const HIGHSCORE_CAP: usize = 10;

/// The settings of a session: a difficulty and a color letter.
#[derive(Clone, Copy, Debug)]
pub struct Settings {
    difficulty: u32,
    color: char,
}

impl Settings {
    /// Settings with `difficulty` and `color`.
    pub fn new(difficulty: u32, color: char) -> (r: Settings)
        ensures
            r.difficulty() == difficulty,
            r.color() == color,
    {
        Settings { difficulty, color }
    }

    pub closed spec fn difficulty(&self) -> u32 {
        self.difficulty
    }

    pub closed spec fn color(&self) -> char {
        self.color
    }

    /// The difficulty.
    pub fn get_difficulty(&self) -> (r: u32)
        ensures
            r == self.difficulty(),
    {
        self.difficulty
    }

    /// The color letter.
    pub fn get_color(&self) -> (r: char)
        ensures
            r == self.color(),
    {
        self.color
    }

    /// The same settings with another difficulty.
    pub fn set_difficulty(&mut self, difficulty: u32)
        ensures
            final(self).difficulty() == difficulty,
            final(self).color() == old(self).color(),
    {
        self.difficulty = difficulty;
    }

    /// The same settings with another color letter.
    pub fn set_color(&mut self, color: char)
        ensures
            final(self).difficulty() == old(self).difficulty(),
            final(self).color() == color,
    {
        self.color = color;
    }
}

/// A player: a name and a score.
pub struct User {
    name: String,
    pub score: u32,
}

impl User {
    /// The player as a name and a score.
    pub closed spec fn entry(&self) -> (Seq<char>, u32) {
        (self.name@, self.score)
    }

    /// A new player called `name`, with no score yet.
    pub fn add_user(name: String) -> (r: User)
        ensures
            r.entry() == (name@, 0u32),
    {
        User { name, score: 0 }
    }

    /// A player called `name` with `score`.
    pub fn new(name: String, score: u32) -> (r: User)
        ensures
            r.entry() == (name@, score),
    {
        User { name, score }
    }

    /// The player's score.
    pub fn get_score(&self) -> (r: u32)
        ensures
            r == self.entry().1,
    {
        self.score
    }

    /// The same player with another score.
    pub fn set_score(&mut self, score: u32)
        ensures
            final(self).entry() == (old(self).entry().0, score),
    {
        self.score = score;
    }

    /// The player's name.
    pub fn name(&self) -> (r: &String)
        ensures
            r@ == self.entry().0,
    {
        &self.name
    }

    /// An equal player.
    pub fn duplicate(&self) -> (r: User)
        ensures
            r.entry() == self.entry(),
    {
        User { name: self.name.clone(), score: self.score }
    }
}

/// The players as names and scores.
pub open spec fn entries_of(s: Seq<User>) -> Seq<(Seq<char>, u32)> {
    s.map_values(|u: User| u.entry())
}

/// No entry scores more than the one before it.
pub open spec fn descending(es: Seq<(Seq<char>, u32)>) -> bool {
    forall|i: int, j: int| 0 <= i < j < es.len() ==> es[i].1 >= es[j].1
}

/// Where an entry with `score` goes in `es`: after every entry that scores
/// more, before the rest.
pub open spec fn place(es: Seq<(Seq<char>, u32)>, score: u32) -> int
    decreases es.len(),
{
    if es.len() == 0 || es[0].1 <= score {
        0
    } else {
        1 + place(es.drop_first(), score)
    }
}

/// The table `es` with `e` put in its place, the lowest entry dropped when
/// that makes more than `HIGHSCORE_CAP` entries.
pub open spec fn ranked(es: Seq<(Seq<char>, u32)>, e: (Seq<char>, u32)) -> Seq<(Seq<char>, u32)> {
    let r = es.insert(place(es, e.1), e);
    if r.len() > HIGHSCORE_CAP {
        r.drop_last()
    } else {
        r
    }
}

proof fn lemma_place(es: Seq<(Seq<char>, u32)>, score: u32, p: int)
    requires
        0 <= p <= es.len(),
        forall|k: int| 0 <= k < p ==> (#[trigger] es[k]).1 > score,
        p == es.len() || es[p].1 <= score,
    ensures
        place(es, score) == p,
    decreases p,
{
    if p > 0 {
        let rest = es.drop_first();
        assert forall|k: int| 0 <= k < p - 1 implies (#[trigger] rest[k]).1 > score by {
            assert(rest[k] == es[k + 1]);
        }
        if p < es.len() {
            assert(rest[p - 1] == es[p]);
        }
        lemma_place(rest, score, p - 1);
    }
}

/// The best scores, highest first, at most `HIGHSCORE_CAP` of them.
pub struct Highscores {
    users: Vec<User>,
}

impl Highscores {
    /// The entries, highest first.
    pub closed spec fn entries(&self) -> Seq<(Seq<char>, u32)> {
        entries_of(self.users@)
    }

    /// At most `HIGHSCORE_CAP` entries, highest first.
    pub open spec fn wf(&self) -> bool {
        self.entries().len() <= HIGHSCORE_CAP && descending(self.entries())
    }

    /// An empty table.
    pub fn new() -> (r: Highscores)
        ensures
            r.wf(),
            r.entries() == Seq::<(Seq<char>, u32)>::empty(),
    {
        let r = Highscores { users: Vec::new() };
        assert(r.entries() =~= Seq::<(Seq<char>, u32)>::empty());
        r
    }

    /// The players in the table, highest score first.
    pub fn users(&self) -> (r: &Vec<User>)
        ensures
            entries_of(r@) == self.entries(),
    {
        &self.users
    }

    /// An equal table.
    pub fn duplicate(&self) -> (r: Highscores)
        ensures
            r.entries() == self.entries(),
    {
        let mut users: Vec<User> = Vec::new();
        let mut i: usize = 0;
        while i < self.users.len()
            invariant
                0 <= i <= self.users@.len(),
                users@.len() == i,
                entries_of(users@) == self.entries().subrange(0, i as int),
            decreases self.users@.len() - i,
        {
            let ghost before = users@;
            let d = self.users[i].duplicate();
            users.push(d);
            assert(users@ == before.push(d));
            assert(entries_of(users@)[i as int] == self.entries()[i as int]);
            i = i + 1;
            assert(entries_of(users@) =~= self.entries().subrange(0, i as int));
        }
        let r = Highscores { users };
        assert(r.entries() =~= self.entries());
        r
    }

    /// Puts `user` in its place in the table, ahead of the entries with the
    /// same score; a full table then drops its lowest entry, which may be
    /// `user` itself. Returns the new table.
    pub fn append(&mut self, user: User) -> (r: Highscores)
        requires
            old(self).wf(),
        ensures
            final(self).wf(),
            final(self).entries() == ranked(old(self).entries(), user.entry()),
            r.entries() == final(self).entries(),
    {
        let ghost es = self.entries();
        let ghost e = user.entry();
        let mut p: usize = 0;
        while p < self.users.len() && self.users[p].score > user.score
            invariant
                0 <= p <= self.users@.len(),
                es == self.entries(),
                forall|k: int| 0 <= k < p ==> (#[trigger] es[k]).1 > user.score,
            decreases self.users@.len() - p,
        {
            assert(es[p as int].1 == self.users@[p as int].score);
            p = p + 1;
        }
        proof {
            if p < es.len() {
                assert(es[p as int].1 == self.users@[p as int].score);
            }
            lemma_place(es, user.score, p as int);
        }
        self.users.insert(p, user);
        assert(self.entries() =~= es.insert(p as int, e));
        if self.users.len() > HIGHSCORE_CAP {
            self.users.pop();
            assert(self.entries() =~= es.insert(p as int, e).drop_last());
        }
        proof {
            let r = es.insert(p as int, e);
            assert forall|i: int, j: int| 0 <= i < j < r.len() implies r[i].1 >= r[j].1 by {
                if j < p {
                } else if i < p && j == p {
                } else if i < p {
                    assert(r[j] == es[j - 1]);
                } else if i == p {
                    assert(r[j] == es[j - 1]);
                    assert(es[p as int].1 <= e.1);
                } else {
                    assert(r[i] == es[i - 1]);
                    assert(r[j] == es[j - 1]);
                }
            }
        }
        self.duplicate()
    }
}


/// The screen of the start menu that waits for a key.
#[derive(Clone, Copy, Debug, PartialEq, Eq, Structural)]
pub enum MenuScreen {
    /// Play, settings or high scores.
    Main,
    /// Difficulty, color or back.
    Options,
    /// Waiting for a difficulty from `1` to `9`.
    Difficulty,
    /// Waiting for `r` or `b`.
    Color,
    /// The high scores are shown; any key goes back.
    Scores,
    /// The menu is done: the game starts once the player's name is read.
    Play,
}

/// What the menu shows after a key.
#[derive(Clone, Copy, Debug, PartialEq, Eq, Structural)]
pub enum MenuAction {
    /// Nothing new.
    Stay,
    /// The main menu.
    ShowMain,
    /// The settings menu.
    ShowOptions,
    /// The question for a difficulty.
    AskDifficulty,
    /// The note that a difficulty is a digit from `1` to `9`.
    DigitNeeded,
    /// The question for a color.
    AskColor,
    /// The high-score table.
    ShowScores,
    /// The question for the player's name.
    AskName,
}

/// The difficulty a key names: `1` to `9`; any other key names none.
pub open spec fn digit_value(c: char) -> Option<u32> {
    if '1' <= c <= '9' {
        Some((c as u32 - '0' as u32) as u32)
    } else {
        None
    }
}

/// Where a key press on `screen` leads, what is shown then, and the
/// settings after it.
pub open spec fn menu_transition(screen: MenuScreen, key: char, s: Settings) -> (
    MenuScreen,
    MenuAction,
    (u32, char),
) {
    let keep = (s.difficulty(), s.color());
    match screen {
        MenuScreen::Main => if key == '1' {
            (MenuScreen::Play, MenuAction::AskName, keep)
        } else if key == '2' {
            (MenuScreen::Options, MenuAction::ShowOptions, keep)
        } else if key == '3' {
            (MenuScreen::Scores, MenuAction::ShowScores, keep)
        } else {
            (screen, MenuAction::Stay, keep)
        },
        MenuScreen::Options => if key == '1' {
            (MenuScreen::Difficulty, MenuAction::AskDifficulty, keep)
        } else if key == '2' {
            (MenuScreen::Color, MenuAction::AskColor, keep)
        } else if key == '3' {
            (MenuScreen::Main, MenuAction::ShowMain, keep)
        } else {
            (screen, MenuAction::Stay, keep)
        },
        MenuScreen::Difficulty => match digit_value(key) {
            Some(d) => (MenuScreen::Options, MenuAction::ShowOptions, (d, s.color())),
            None => (screen, MenuAction::DigitNeeded, keep),
        },
        MenuScreen::Color => if key == 'r' || key == 'b' {
            (MenuScreen::Options, MenuAction::ShowOptions, (s.difficulty(), key))
        } else {
            (screen, MenuAction::Stay, keep)
        },
        MenuScreen::Scores => (MenuScreen::Main, MenuAction::ShowMain, keep),
        MenuScreen::Play => (screen, MenuAction::Stay, keep),
    }
}

impl Settings {
    /// Takes a key pressed on `screen` of the start menu: moves to the next
    /// screen, records a chosen difficulty or color, and says what to show.
    pub fn menu_step(&mut self, screen: MenuScreen, key: char) -> (r: (MenuScreen, MenuAction))
        ensures
            (r.0, r.1, (final(self).difficulty(), final(self).color())) == menu_transition(
                screen,
                key,
                *old(self),
            ),
    {
        match screen {
            MenuScreen::Main => if key == '1' {
                (MenuScreen::Play, MenuAction::AskName)
            } else if key == '2' {
                (MenuScreen::Options, MenuAction::ShowOptions)
            } else if key == '3' {
                (MenuScreen::Scores, MenuAction::ShowScores)
            } else {
                (screen, MenuAction::Stay)
            },
            MenuScreen::Options => if key == '1' {
                (MenuScreen::Difficulty, MenuAction::AskDifficulty)
            } else if key == '2' {
                (MenuScreen::Color, MenuAction::AskColor)
            } else if key == '3' {
                (MenuScreen::Main, MenuAction::ShowMain)
            } else {
                (screen, MenuAction::Stay)
            },
            MenuScreen::Difficulty => if '1' <= key && key <= '9' {
                self.difficulty = (key as u32) - ('0' as u32);
                (MenuScreen::Options, MenuAction::ShowOptions)
            } else {
                (screen, MenuAction::DigitNeeded)
            },
            MenuScreen::Color => if key == 'r' || key == 'b' {
                self.color = key;
                (MenuScreen::Options, MenuAction::ShowOptions)
            } else {
                (screen, MenuAction::Stay)
            },
            MenuScreen::Scores => (MenuScreen::Main, MenuAction::ShowMain),
            MenuScreen::Play => (screen, MenuAction::Stay),
        }
    }
}

} // verus!
