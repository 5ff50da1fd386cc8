//! Errors of the engine.

use vstd::prelude::*;
use vstd::string::StringExecFns;

verus! {

/// `Error` of serde_json: why something could not be turned into JSON or back.
#[verifier::external_type_specification]
#[verifier::external_body]
pub struct ExJsonError(serde_json::Error);

/// Errors of the engine and of what feeds it.
#[derive(Debug)]
pub enum TacticalError {
    /// A reading named a room that is not part of the loaded structure.
    UnknownRoom(String),
    /// The structure has no rooms, so no picture can be made.
    EmptyStructure,
    /// A supplied value was outside its valid range.
    Invalid(String),
    /// Something could not be turned into JSON or back.
    Serialization(serde_json::Error),
}

/// `Display` of `Error` of serde_json: the error in words. Nothing is claimed of
/// the text: that of an input or output error is the operating system's own.
#[verifier::external_body]
fn json_error_text(e: &serde_json::Error) -> (r: String) {
    e.to_string()
}

impl TacticalError {
    /// The message of an error. `why` is what a JSON error says of itself, and
    /// matters to no other.
    pub open spec fn text(self, why: Seq<char>) -> Seq<char> {
        match self {
            TacticalError::UnknownRoom(room) => "unknown room: "@ + room@,
            TacticalError::EmptyStructure => "structure has no rooms defined"@,
            TacticalError::Invalid(what) => "invalid input: "@ + what@,
            TacticalError::Serialization(_) => "serialization error: "@ + why,
        }
    }

    /// The message of this error. What a JSON error says of itself goes into it
    /// unchanged, as [`TacticalError::message_with`] puts it.
    pub fn message(&self) -> (r: String)
        ensures
            exists|why: Seq<char>| r@ == #[trigger] self.text(why),
            !(self is Serialization) ==> forall|why: Seq<char>| r@ == #[trigger] self.text(why),
    {
        match self {
            TacticalError::Serialization(e) => {
                let why: String = json_error_text(e);
                self.message_with(why.as_str())
            },
            _ => self.message_with(""),
        }
    }

    /// The message of this error, where a JSON error says `why` of itself.
    pub fn message_with(&self, why: &str) -> (r: String)
        ensures
            r@ == self.text(why@),
    {
        match self {
            TacticalError::UnknownRoom(room) => {
                let mut r: String = "unknown room: ".to_owned();
                r.append(room.as_str());
                r
            },
            TacticalError::EmptyStructure => "structure has no rooms defined".to_owned(),
            TacticalError::Invalid(what) => {
                let mut r: String = "invalid input: ".to_owned();
                r.append(what.as_str());
                r
            },
            TacticalError::Serialization(_) => {
                let mut r: String = "serialization error: ".to_owned();
                r.append(why);
                r
            },
        }
    }
}

impl From<serde_json::Error> for TacticalError {
    fn from(e: serde_json::Error) -> (r: TacticalError) {
        TacticalError::Serialization(e)
    }
}

impl vstd::std_specs::convert::FromSpecImpl<serde_json::Error> for TacticalError {
    open spec fn obeys_from_spec() -> bool {
        true
    }

    open spec fn from_spec(e: serde_json::Error) -> TacticalError {
        TacticalError::Serialization(e)
    }
}

/// An error is told in its own words, and behind them what it names: the room,
/// or what was wrong with the input, or why JSON was.
pub proof fn errors_tell_what_they_name(e: TacticalError, why: Seq<char>)
    ensures
        e matches TacticalError::UnknownRoom(room) ==> {
            &&& e.text(why).len() == 14 + room@.len()
            &&& e.text(why).take(14) == "unknown room: "@
            &&& e.text(why).skip(14) == room@
        },
        e matches TacticalError::Invalid(what) ==> {
            &&& e.text(why).len() == 15 + what@.len()
            &&& e.text(why).take(15) == "invalid input: "@
            &&& e.text(why).skip(15) == what@
        },
        e is Serialization ==> {
            &&& e.text(why).len() == 21 + why.len()
            &&& e.text(why).take(21) == "serialization error: "@
            &&& e.text(why).skip(21) == why
        },
        e is EmptyStructure ==> e.text(why) == "structure has no rooms defined"@,
{
    reveal_strlit("unknown room: ");
    reveal_strlit("invalid input: ");
    reveal_strlit("serialization error: ");
    match e {
        TacticalError::UnknownRoom(room) => {
            assert(e.text(why).take(14) =~= "unknown room: "@);
            assert(e.text(why).skip(14) =~= room@);
        },
        TacticalError::Invalid(what) => {
            assert(e.text(why).take(15) =~= "invalid input: "@);
            assert(e.text(why).skip(15) =~= what@);
        },
        TacticalError::Serialization(_) => {
            assert(e.text(why).take(21) =~= "serialization error: "@);
            assert(e.text(why).skip(21) =~= why);
        },
        TacticalError::EmptyStructure => {},
    }
}

} // verus!
