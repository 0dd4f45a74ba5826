//! The commands of the stopwatch's shell.

use vstd::prelude::*;
use vstd::string::*;
use vstd::utf8::*;

verus! {

/// A command of the shell.
#[derive(Clone, Copy, Debug, PartialEq, Eq, Structural)]
pub enum Command {
    Help,
    Display,
    Toggle,
    Reset,
    Change,
    Offset,
    Name,
    Precision,
    License,
    Quit,
}

/// The name of a command as typed.
pub open spec fn name_of(c: Command) -> Seq<char> {
    match c {
        Command::Help => "h"@,
        Command::Display => ""@,
        Command::Toggle => "s"@,
        Command::Reset => "r"@,
        Command::Change => "c"@,
        Command::Offset => "o"@,
        Command::Name => "n"@,
        Command::Precision => "p"@,
        Command::License => "l"@,
        Command::Quit => "q"@,
    }
}

impl Command {
    /// The name the command is typed as.
    pub fn as_str(&self) -> (r: &'static str)
        ensures
            r@ == name_of(*self),
    {
        match self {
            Command::Help => "h",
            Command::Display => "",
            Command::Toggle => "s",
            Command::Reset => "r",
            Command::Change => "c",
            Command::Offset => "o",
            Command::Name => "n",
            Command::Precision => "p",
            Command::License => "l",
            Command::Quit => "q",
        }
    }
}

/// What the shell's loop is told after a command.
#[derive(Clone, Copy, Debug, PartialEq, Eq, Structural)]
pub enum Passback {
    Quit,
}

/// All commands, in the order the help lists them.
pub open spec fn all_commands() -> Seq<Command> {
    seq![
        Command::Help,
        Command::Display,
        Command::Toggle,
        Command::Reset,
        Command::Change,
        Command::Offset,
        Command::Name,
        Command::Precision,
        Command::License,
        Command::Quit,
    ]
}

impl Command {
    /// Every command, in the order the help lists them.
    pub fn all() -> (r: Vec<Command>)
        ensures
            r@ == all_commands(),
    {
        let r = vec![
            Command::Help,
            Command::Display,
            Command::Toggle,
            Command::Reset,
            Command::Change,
            Command::Offset,
            Command::Name,
            Command::Precision,
            Command::License,
            Command::Quit,
        ];
        assert(r@ =~= all_commands());
        r
    }

    /// The command typed as `s`, if any.
    pub fn from_name(s: &str) -> (r: Option<Command>)
        ensures
            r matches Some(c) ==> name_of(c) == s@,
            r is None ==> forall|i: int| 0 <= i < all_commands().len() ==> name_of(#[trigger] all_commands()[i]) != s@,
    {
        let all = Command::all();
        let mut i: usize = 0;
        while i < all.len()
            invariant
                all@ == all_commands(),
                i <= all@.len(),
                forall|j: int| 0 <= j < i ==> name_of(#[trigger] all_commands()[j]) != s@,
            decreases all@.len() - i,
        {
            let c = all[i];
            if str_eq(c.as_str(), s) {
                return Some(c);
            }
            i = i + 1;
        }
        None
    }
}

/// Whether two texts are the same.
fn str_eq(a: &str, b: &str) -> (r: bool)
    ensures
        r == (a@ == b@),
{
    let x = a.as_bytes();
    let y = b.as_bytes();
    if x.len() != y.len() {
        proof {
            if a@ == b@ {
                assert(a.spec_bytes() == b.spec_bytes());
            }
        }
        return false;
    }
    let mut i: usize = 0;
    while i < x.len()
        invariant
            x@ == a.spec_bytes(),
            y@ == b.spec_bytes(),
            x@.len() == y@.len(),
            i <= x@.len(),
            forall|j: int| 0 <= j < i ==> x@[j] == y@[j],
        decreases x@.len() - i,
    {
        if x[i] != y[i] {
            proof {
                if a@ == b@ {
                    assert(a.spec_bytes() == b.spec_bytes());
                }
            }
            return false;
        }
        i = i + 1;
    }
    proof {
        assert(x@ =~= y@);
        encode_utf8_decode_utf8(a@);
        encode_utf8_decode_utf8(b@);
    }
    true
}

} // verus!
