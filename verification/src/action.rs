//! Actions and the commands they resolve to.
//!
//! An action is a string token.  Its first whitespace-delimited word
//! decides its shape: a word beginning with `/` names an executable that is
//! run as-is in either direction, any other word names a service-manager
//! unit whose semantics depend on the direction, and a string without any
//! word is an error.  Resolution is pure: it yields command descriptions,
//! never side effects.

use vstd::prelude::*;
use vstd::string::StrSliceExecFns;

verus! {

/// The direction an action list is executed in.
#[derive(PartialEq, Eq, Structural, Clone, Copy, Debug)]
pub enum State {
    Start,
    Stop,
}

/// A command the engine asks its driver to perform.  `ResetFailed` clears
/// a unit's failed state and its outcome is discarded; `Sleep` is the
/// fixed two-second pause between fallback attempts; the outcome of every
/// other command is observed as success or failure.
#[derive(PartialEq, Eq, Clone, Debug)]
pub enum Cmd {
    ResetFailed(String),
    UnitStart(String),
    UnitStop(String),
    System(String),
    Sleep,
}

/// Mathematical model of a command.
pub enum CmdV {
    ResetFailed(Seq<char>),
    UnitStart(Seq<char>),
    UnitStop(Seq<char>),
    System(Seq<char>),
    Sleep,
}

impl View for Cmd {
    type V = CmdV;

    open spec fn view(&self) -> CmdV {
        match self {
            Cmd::ResetFailed(u) => CmdV::ResetFailed(u@),
            Cmd::UnitStart(u) => CmdV::UnitStart(u@),
            Cmd::UnitStop(u) => CmdV::UnitStop(u@),
            Cmd::System(c) => CmdV::System(c@),
            Cmd::Sleep => CmdV::Sleep,
        }
    }
}

impl DeepView for Cmd {
    type V = CmdV;

    open spec fn deep_view(&self) -> CmdV {
        self.view()
    }
}

/// Error raised when an action string holds no word at all.  Command
/// failures are not errors of this library: they enter the model as the
/// observed outcome of a command.
#[derive(PartialEq, Eq, Structural, Clone, Copy, Debug)]
pub enum PromoterError {
    EmptyAction,
}

/// The characters that separate words of an action string.
pub open spec fn spec_is_space(c: char) -> bool {
    c == ' ' || c == '\t' || c == '\n' || c == '\r' || c == '\x0b' || c == '\x0c'
}

/// Index of the first non-space character, or the length when there is
/// none.
pub open spec fn spec_first_word(s: Seq<char>) -> int
    decreases s.len(),
{
    if s.len() == 0 {
        0
    } else if !spec_is_space(s[0]) {
        0
    } else {
        1 + spec_first_word(s.drop_first())
    }
}

/// An action string is blank when it holds no word.
pub open spec fn spec_blank(s: Seq<char>) -> bool {
    spec_first_word(s) == s.len()
}

/// The shape of an action string.
#[derive(PartialEq, Eq, Structural, Clone, Copy, Debug)]
pub enum Shape {
    Blank,
    Absolute,
    Unit,
}

/// Shape of an action string: blank, an absolute program path, or a unit
/// name.
pub open spec fn spec_shape(s: Seq<char>) -> Shape {
    if spec_blank(s) {
        Shape::Blank
    } else if s[spec_first_word(s)] == '/' {
        Shape::Absolute
    } else {
        Shape::Unit
    }
}

/// The first-word index is in range, everything before it is space, and
/// the character there, if any, is not.
pub proof fn lemma_first_word_char(s: Seq<char>)
    ensures
        0 <= spec_first_word(s) <= s.len(),
        forall|k: int| 0 <= k < spec_first_word(s) ==> spec_is_space(s[k]),
        spec_first_word(s) < s.len() ==> !spec_is_space(s[spec_first_word(s)]),
    decreases s.len(),
{
    if s.len() > 0 && spec_is_space(s[0]) {
        lemma_first_word_char(s.drop_first());
        assert(forall|k: int| 0 <= k < s.len() - 1 ==> s.drop_first()[k] == s[k + 1]);
        assert forall|k: int| 0 <= k < spec_first_word(s) implies spec_is_space(s[k]) by {
            if k > 0 {
                assert(spec_is_space(s.drop_first()[k - 1]));
            }
        }
    }
}

/// An index with only spaces before it and no space at it, if in range,
/// is the first-word index.
proof fn lemma_first_word_at(s: Seq<char>, i: int)
    requires
        0 <= i <= s.len(),
        forall|k: int| 0 <= k < i ==> spec_is_space(s[k]),
        i < s.len() ==> !spec_is_space(s[i]),
    ensures
        spec_first_word(s) == i,
    decreases s.len(),
{
    if s.len() > 0 && i > 0 {
        assert(spec_is_space(s[0]));
        assert(forall|k: int| 0 <= k < i - 1 ==> s.drop_first()[k] == s[k + 1]);
        lemma_first_word_at(s.drop_first(), i - 1);
    }
}

fn is_space(c: char) -> (r: bool)
    ensures
        r == spec_is_space(c),
{
    c == ' ' || c == '\t' || c == '\n' || c == '\r' || c == '\x0b' || c == '\x0c'
}

/// Classifies an action string, as [`spec_shape`] states.
pub fn classify(what: &str) -> (r: Shape)
    ensures
        r == spec_shape(what@),
{
    let n = what.unicode_len();
    let mut i: usize = 0;
    while i < n
        invariant
            n == what@.len(),
            i <= n,
            forall|k: int| 0 <= k < i ==> spec_is_space(what@[k]),
        decreases n - i,
    {
        let c = what.get_char(i);
        if !is_space(c) {
            proof {
                lemma_first_word_at(what@, i as int);
            }
            if c == '/' {
                return Shape::Absolute;
            }
            return Shape::Unit;
        }
        i = i + 1;
    }
    proof {
        lemma_first_word_at(what@, n as int);
    }
    Shape::Blank
}

/// The commands one action resolves to in a given direction: nothing for a
/// blank string, the raw program call for an absolute path, and for a unit
/// name a discarded failed-state reset followed by the unit start, or the
/// unit stop alone.
pub open spec fn spec_plan(to: State, s: Seq<char>) -> Seq<CmdV> {
    match spec_shape(s) {
        Shape::Blank => Seq::empty(),
        Shape::Absolute => seq![CmdV::System(s)],
        Shape::Unit => match to {
            State::Start => seq![CmdV::ResetFailed(s), CmdV::UnitStart(s)],
            State::Stop => seq![CmdV::UnitStop(s)],
        },
    }
}

/// Resolves one action to its commands, as [`spec_plan`] states; a blank
/// action is rejected with [`PromoterError::EmptyAction`].
pub fn action(to: State, what: &str) -> (r: Result<Vec<Cmd>, PromoterError>)
    ensures
        match r {
            Ok(cmds) => !spec_blank(what@) && cmds.deep_view() == spec_plan(to, what@),
            Err(e) => spec_blank(what@) && e == PromoterError::EmptyAction,
        },
{
    match classify(what) {
        Shape::Blank => Err(PromoterError::EmptyAction),
        Shape::Absolute => {
            let mut cmds: Vec<Cmd> = Vec::new();
            cmds.push(Cmd::System(what.to_owned()));
            proof {
                assert(cmds.deep_view() =~= spec_plan(to, what@));
            }
            Ok(cmds)
        },
        Shape::Unit => {
            let mut cmds: Vec<Cmd> = Vec::new();
            match to {
                State::Start => {
                    cmds.push(Cmd::ResetFailed(what.to_owned()));
                    cmds.push(Cmd::UnitStart(what.to_owned()));
                },
                State::Stop => {
                    cmds.push(Cmd::UnitStop(what.to_owned()));
                },
            }
            proof {
                assert(cmds.deep_view() =~= spec_plan(to, what@));
            }
            Ok(cmds)
        },
    }
}

} // verus!
