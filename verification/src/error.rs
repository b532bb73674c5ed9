//! What can go wrong, and how it is reported.
use vstd::prelude::*;

use crate::text;

verus! {

/// Why a jq program cannot be used.
#[derive(Debug)]
pub enum JqError {
    /// It is not a program.
    Parse(String),
    /// It uses what is not defined.
    Compile(String),
}

/// An error of the library.
#[derive(Debug)]
pub enum Error {
    /// No section has this name.
    UnknownSection(String),
    /// No record type has this name.
    UnknownRecordType(String),
    /// A regular expression does not compile, with the reason.
    Pattern(String),
    /// No filter mode has this name.
    UnknownMode(String),
    /// No filter action has this name.
    UnknownAction(String),
    /// A jq expression does not compile.
    Jq { expression: String, reason: JqError },
    /// A filter file is part of a chain twice.
    CircularChain(String),
    /// A packet is not a DNS message.
    Malformed,
    /// A message cannot be written as a packet, with the reason.
    Encoding(String),
    /// No interface has this name.
    InterfaceNotFound(String),
    /// A transform failed, with the reason.
    Transform(String),
}

/// What distinguishes the reasons why a jq program cannot be used.
pub enum JqFault {
    Parse(Seq<char>),
    Compile(Seq<char>),
}

/// What distinguishes errors.
pub enum Fault {
    UnknownSection(Seq<char>),
    UnknownRecordType(Seq<char>),
    Pattern(Seq<char>),
    UnknownMode(Seq<char>),
    UnknownAction(Seq<char>),
    Jq { expression: Seq<char>, reason: JqFault },
    CircularChain(Seq<char>),
    Malformed,
    Encoding(Seq<char>),
    InterfaceNotFound(Seq<char>),
    Transform(Seq<char>),
}

impl View for JqError {
    type V = JqFault;

    open spec fn view(&self) -> JqFault {
        match self {
            JqError::Parse(text) => JqFault::Parse(text@),
            JqError::Compile(text) => JqFault::Compile(text@),
        }
    }
}

impl View for Error {
    type V = Fault;

    open spec fn view(&self) -> Fault {
        match self {
            Error::UnknownSection(name) => Fault::UnknownSection(name@),
            Error::UnknownRecordType(name) => Fault::UnknownRecordType(name@),
            Error::Pattern(text) => Fault::Pattern(text@),
            Error::UnknownMode(name) => Fault::UnknownMode(name@),
            Error::UnknownAction(name) => Fault::UnknownAction(name@),
            Error::Jq { expression, reason } => Fault::Jq {
                expression: expression@,
                reason: reason@,
            },
            Error::CircularChain(path) => Fault::CircularChain(path@),
            Error::Malformed => Fault::Malformed,
            Error::Encoding(text) => Fault::Encoding(text@),
            Error::InterfaceNotFound(name) => Fault::InterfaceNotFound(name@),
            Error::Transform(text) => Fault::Transform(text@),
        }
    }
}

/// The message of an error.
pub open spec fn fault_text(fault: Fault) -> Seq<char> {
    match fault {
        Fault::UnknownSection(name) => "Unknown section '"@ + name
            + "'. Expected: answers, authorities, additionals, all"@,
        Fault::UnknownRecordType(name) => "Unknown record type: "@ + name,
        Fault::Pattern(text) => text,
        Fault::UnknownMode(name) => "Unknown filter mode '"@ + name + "'. Expected: any, all"@,
        Fault::UnknownAction(name) => "Unknown filter action '"@ + name
            + "'. Expected: show, hide"@,
        Fault::Jq { expression, .. } => "Failed to compile jq expression: "@ + expression,
        Fault::CircularChain(path) => "Circular chain detected: "@ + path,
        Fault::Malformed => "Failed to parse DNS message"@,
        Fault::Encoding(text) => text,
        Fault::InterfaceNotFound(name) => "Interface '"@ + name + "' not found"@,
        Fault::Transform(text) => text,
    }
}

/// The message of an error, with the reason behind it where there is one.
pub open spec fn full_fault_text(fault: Fault) -> Seq<char> {
    match fault {
        Fault::Jq { reason, .. } => fault_text(fault) + ": "@ + match reason {
            JqFault::Parse(text) => "jq parse error: "@ + text,
            JqFault::Compile(text) => "jq compile error: "@ + text,
        },
        _ => fault_text(fault),
    }
}

/// `before`, `middle` and `after` in one text.
fn framed(before: &str, middle: &str, after: &str) -> (r: String)
    ensures
        r@ == before@ + middle@ + after@,
{
    let mut r = before.to_owned();
    r.append(middle);
    r.append(after);
    r
}

impl Error {
    /// The message of this error.
    pub fn message(&self) -> (r: String)
        ensures
            r@ == fault_text(self@),
    {
        match self {
            Error::UnknownSection(name) => framed(
                "Unknown section '",
                name.as_str(),
                "'. Expected: answers, authorities, additionals, all",
            ),
            Error::UnknownRecordType(name) => {
                let mut r = "Unknown record type: ".to_owned();
                r.append(name.as_str());
                r
            },
            Error::Pattern(text) => text.clone(),
            Error::UnknownMode(name) => framed(
                "Unknown filter mode '",
                name.as_str(),
                "'. Expected: any, all",
            ),
            Error::UnknownAction(name) => framed(
                "Unknown filter action '",
                name.as_str(),
                "'. Expected: show, hide",
            ),
            Error::Jq { expression, .. } => {
                let mut r = "Failed to compile jq expression: ".to_owned();
                r.append(expression.as_str());
                r
            },
            Error::CircularChain(path) => {
                let mut r = "Circular chain detected: ".to_owned();
                r.append(path.as_str());
                r
            },
            Error::Malformed => "Failed to parse DNS message".to_owned(),
            Error::Encoding(text) => text.clone(),
            Error::InterfaceNotFound(name) => framed("Interface '", name.as_str(), "' not found"),
            Error::Transform(text) => text.clone(),
        }
    }

    /// The message of this error, with the reason behind it where there is one.
    pub fn full_message(&self) -> (r: String)
        ensures
            r@ == full_fault_text(self@),
    {
        let mut r = self.message();
        if let Error::Jq { reason, .. } = self {
            r.append(": ");
            let ghost so_far = r@;
            match reason {
                JqError::Parse(text) => {
                    r.append("jq parse error: ");
                    r.append(text.as_str());
                    assert(r@ =~= so_far + ("jq parse error: "@ + text@));
                },
                JqError::Compile(text) => {
                    r.append("jq compile error: ");
                    r.append(text.as_str());
                    assert(r@ =~= so_far + ("jq compile error: "@ + text@));
                },
            }
        }
        r
    }
}

// --- Laws ---

/// A message about a name, a path or an expression says what is wrong and shows
/// it in full.
pub proof fn messages_name_what_is_wrong(text: Seq<char>, reason: JqFault)
    ensures
        fault_text(Fault::UnknownSection(text)) == "Unknown section '"@ + text
            + "'. Expected: answers, authorities, additionals, all"@,
        fault_text(Fault::UnknownRecordType(text)) == "Unknown record type: "@ + text,
        fault_text(Fault::UnknownMode(text)) == "Unknown filter mode '"@ + text
            + "'. Expected: any, all"@,
        fault_text(Fault::UnknownAction(text)) == "Unknown filter action '"@ + text
            + "'. Expected: show, hide"@,
        fault_text(Fault::Jq { expression: text, reason }) == "Failed to compile jq expression: "@
            + text,
        fault_text(Fault::CircularChain(text)) == "Circular chain detected: "@ + text,
        fault_text(Fault::InterfaceNotFound(text)) == "Interface '"@ + text + "' not found"@,
{
}

/// A reason from elsewhere is passed on as it is.
pub proof fn reasons_are_passed_on(text: Seq<char>)
    ensures
        fault_text(Fault::Pattern(text)) == text,
        fault_text(Fault::Encoding(text)) == text,
        fault_text(Fault::Transform(text)) == text,
{
}

/// The full message begins with the message. Of a jq program it goes on with the
/// reason, and says whether that came from reading or from compiling the program.
/// Nothing else has more to say.
pub proof fn full_messages_add_the_reason(fault: Fault)
    ensures
        text::begins_with(full_fault_text(fault), fault_text(fault)),
        fault matches Fault::Jq { reason: JqFault::Parse(why), .. } ==> text::finishes_with(
            full_fault_text(fault),
            ": jq parse error: "@ + why,
        ),
        fault matches Fault::Jq { reason: JqFault::Compile(why), .. } ==> text::finishes_with(
            full_fault_text(fault),
            ": jq compile error: "@ + why,
        ),
        !(fault is Jq) ==> full_fault_text(fault) == fault_text(fault),
{
    let short = fault_text(fault);
    let full = full_fault_text(fault);
    assert(full.subrange(0, short.len() as int) =~= short);
    reveal_strlit(": ");
    reveal_strlit("jq parse error: ");
    reveal_strlit("jq compile error: ");
    reveal_strlit(": jq parse error: ");
    reveal_strlit(": jq compile error: ");
    if let Fault::Jq { reason, .. } = fault {
        match reason {
            JqFault::Parse(why) => {
                assert(": "@ + "jq parse error: "@ =~= ": jq parse error: "@);
                let rest = ": jq parse error: "@ + why;
                assert(full =~= short + rest);
                assert(full.subrange(full.len() - rest.len(), full.len() as int) =~= rest);
            },
            JqFault::Compile(why) => {
                assert(": "@ + "jq compile error: "@ =~= ": jq compile error: "@);
                let rest = ": jq compile error: "@ + why;
                assert(full =~= short + rest);
                assert(full.subrange(full.len() - rest.len(), full.len() as int) =~= rest);
            },
        }
    }
}

/// Errors are told apart by their kind and by what they name.
pub proof fn errors_are_told_apart(error: Error)
    ensures
        error matches Error::UnknownSection(name) ==> error@ == Fault::UnknownSection(name@),
        error matches Error::UnknownRecordType(name) ==> error@ == Fault::UnknownRecordType(name@),
        error matches Error::Pattern(reason) ==> error@ == Fault::Pattern(reason@),
        error matches Error::UnknownMode(name) ==> error@ == Fault::UnknownMode(name@),
        error matches Error::UnknownAction(name) ==> error@ == Fault::UnknownAction(name@),
        error matches Error::Jq { expression, reason } ==> error@ == (Fault::Jq {
            expression: expression@,
            reason: match reason {
                JqError::Parse(why) => JqFault::Parse(why@),
                JqError::Compile(why) => JqFault::Compile(why@),
            },
        }),
        error matches Error::CircularChain(path) ==> error@ == Fault::CircularChain(path@),
        error is Malformed <==> error@ is Malformed,
        error matches Error::Encoding(reason) ==> error@ == Fault::Encoding(reason@),
        error matches Error::InterfaceNotFound(name) ==> error@ == Fault::InterfaceNotFound(name@),
        error matches Error::Transform(reason) ==> error@ == Fault::Transform(reason@),
{
}

} // verus!
