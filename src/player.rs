use vstd::prelude::*;
use vstd::string::{StrSliceExecFns, StringExecFns};
use crate::board::Mark;
use crate::direction::{trim, trim_range};

verus! {

#[derive(Debug, PartialEq, Eq, Structural)]
pub enum NameError {
    TooLong(usize),
    TooShort(usize),
}

/// Fewest characters in a player's name.
pub const MIN_NAME_LEN: usize = 3;

/// Most characters in a player's name.
pub const MAX_NAME_LEN: usize = 60;

/// A player's display name: trimmed, between `MIN_NAME_LEN` and
/// `MAX_NAME_LEN` characters long.
pub struct Name(String);

impl View for Name {
    type V = Seq<char>;

    closed spec fn view(&self) -> Seq<char> {
        self.0@
    }
}

impl Name {
    /// Trims surrounding white space and checks the length of what is left.
    pub fn try_from(s: &str) -> (r: Result<Name, NameError>)
        ensures
            ({
                let t = trim(s@);
                if t.len() < MIN_NAME_LEN {
                    r == Err::<Name, NameError>(NameError::TooShort(t.len() as usize))
                } else if t.len() > MAX_NAME_LEN {
                    r == Err::<Name, NameError>(NameError::TooLong(t.len() as usize))
                } else {
                    r matches Ok(n) && n@ == t
                }
            }),
    {
        let n = s.unicode_len();
        assert(s@.subrange(0, n as int) =~= s@);
        let (a, b) = trim_range(s, 0, n);
        let len = b - a;
        if len < MIN_NAME_LEN {
            Err(NameError::TooShort(len))
        } else if len > MAX_NAME_LEN {
            Err(NameError::TooLong(len))
        } else {
            Ok(Name(String::from_str(s.substring_char(a, b))))
        }
    }

    pub fn as_str(&self) -> (r: &str)
        ensures
            r@ == self@,
    {
        self.0.as_str()
    }
}

/// Who makes the moves of one side: a named human, or a chooser that picks
/// cells at random.
pub enum Player {
    Human { name: Name },
    KI,
}

/// A side that places one fixed mark.
pub trait Marker {
    spec fn mark(&self) -> Mark;

    fn get_mark(&self) -> (r: Mark)
        ensures
            r == self.mark(),
    ;
}

/// The side that places `X` and moves first.
pub struct X {
    player: Player,
}

impl X {
    pub closed spec fn player_spec(&self) -> Player {
        self.player
    }

    pub fn new(player: Player) -> (r: X)
        ensures
            r.player_spec() == player,
    {
        X { player }
    }

    pub fn player(&self) -> (r: &Player)
        ensures
            *r == self.player_spec(),
    {
        &self.player
    }
}

impl Marker for X {
    open spec fn mark(&self) -> Mark {
        Mark::X
    }

    fn get_mark(&self) -> (r: Mark) {
        Mark::X
    }
}

/// The side that places `O` and moves second.
pub struct O {
    player: Player,
}

impl O {
    pub closed spec fn player_spec(&self) -> Player {
        self.player
    }

    pub fn new(player: Player) -> (r: O)
        ensures
            r.player_spec() == player,
    {
        O { player }
    }

    pub fn player(&self) -> (r: &Player)
        ensures
            *r == self.player_spec(),
    {
        &self.player
    }
}

impl Marker for O {
    open spec fn mark(&self) -> Mark {
        Mark::O
    }

    fn get_mark(&self) -> (r: Mark) {
        Mark::O
    }
}

} // verus!
