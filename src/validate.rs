//! Checks on the input path, the output location and the finished archive.
use vstd::prelude::*;
use crate::error::AthenaError;

verus! {

/// Characters of `s` with leading and trailing white space taken off, as
/// `str::trim` gives them.
pub uninterp spec fn trimmed_of(s: Seq<char>) -> Seq<char>;

/// Characters of `s` in lower case, as `str::to_lowercase` gives them.
pub uninterp spec fn lower_of(s: Seq<char>) -> Seq<char>;

/// Relies on `str::trim`: the result depends on the characters alone.
#[verifier::external_body]
fn trim(s: &str) -> (r: &str)
    ensures
        r@ == trimmed_of(s@),
{
    s.trim()
}

/// Relies on `str::to_lowercase`: the result depends on the characters alone.
#[verifier::external_body]
fn lowercase(s: &str) -> (r: String)
    ensures
        r@ == lower_of(s@),
{
    s.to_lowercase()
}

/// A reply as it is compared: trimmed, then in lower case.
pub open spec fn folded_of(reply: Seq<char>) -> Seq<char> {
    lower_of(trimmed_of(reply))
}

/// What an already folded reply to a yes/no question means: `Some(true)` for
/// yes, `Some(false)` for no, the default for an empty reply, `None` for
/// anything else.
pub open spec fn answer_spec(folded: Seq<char>, default: bool) -> Option<bool> {
    if folded == seq!['y'] || folded == seq!['y', 'e', 's'] {
        Some(true)
    } else if folded == seq!['n'] || folded == seq!['n', 'o'] {
        Some(false)
    } else if folded.len() == 0 {
        Some(default)
    } else {
        None
    }
}

/// What to do about an output location.
#[derive(Debug, Clone, Copy, PartialEq, Eq, Structural)]
pub enum OutputPlan {
    /// Use it as it is.
    Ready,
    /// Ask whether the directory is to be created.
    AskToCreate,
}

/// The input path, where it exists.
pub fn input(path: String, present: bool) -> (r: Result<String, AthenaError>)
    ensures
        present ==> (r matches Ok(p) && p@ == path@),
        !present ==> r == Err::<String, AthenaError>(AthenaError::InputNotFound),
{
    if !present {
        return Err(AthenaError::InputNotFound);
    }
    Ok(path)
}

/// An output location that exists, or that names a file in a directory that
/// exists, is used as it is; for any other the user is asked.
pub fn output_plan(present: bool, names_file: bool, parent_exists: bool) -> (r: OutputPlan)
    ensures
        r == (if present || (names_file && parent_exists) {
            OutputPlan::Ready
        } else {
            OutputPlan::AskToCreate
        }),
{
    if present || (names_file && parent_exists) {
        OutputPlan::Ready
    } else {
        OutputPlan::AskToCreate
    }
}

/// Whether an already folded reply is a plain `y`.
pub fn is_yes(folded: &str) -> (r: bool)
    ensures
        r == (folded@ == seq!['y']),
{
    if folded.unicode_len() != 1 {
        return false;
    }
    let c = folded.get_char(0);
    if c == 'y' {
        assert(folded@ =~= seq!['y']);
    }
    c == 'y'
}

/// The output directory that the user was asked about: kept where the reply
/// is `y`, refused otherwise.
pub fn output(dir: String, reply: &str) -> (r: Result<String, AthenaError>)
    ensures
        folded_of(reply@) == seq!['y'] ==> (r matches Ok(p) && p@ == dir@),
        folded_of(reply@) != seq!['y'] ==> r == Err::<String, AthenaError>(AthenaError::OutputAborted),
{
    let t = trim(reply);
    let folded = lowercase(t);
    if is_yes(folded.as_str()) {
        Ok(dir)
    } else {
        Err(AthenaError::OutputAborted)
    }
}

/// What an already folded reply means (see [`answer_spec`]).
pub fn answer(folded: &str, default: bool) -> (r: Option<bool>)
    ensures
        r == answer_spec(folded@, default),
{
    proof {
        reveal_strlit("y");
        reveal_strlit("yes");
        reveal_strlit("n");
        reveal_strlit("no");
        assert("y"@ =~= seq!['y']);
        assert("yes"@ =~= seq!['y', 'e', 's']);
        assert("n"@ =~= seq!['n']);
        assert("no"@ =~= seq!['n', 'o']);
    }
    let s = String::from_str(folded);
    if s == String::from_str("y") || s == String::from_str("yes") {
        Some(true)
    } else if s == String::from_str("n") || s == String::from_str("no") {
        Some(false)
    } else if folded.unicode_len() == 0 {
        Some(default)
    } else {
        None
    }
}

/// What a reply to a yes/no question means, as typed (see [`answer_spec`]).
pub fn parse_reply(reply: &str, default: bool) -> (r: Option<bool>)
    ensures
        r == answer_spec(folded_of(reply@), default),
{
    let t = trim(reply);
    let folded = lowercase(t);
    answer(folded.as_str(), default)
}

/// Whether `head` starts with the gzip magic number `1f 8b`.
pub open spec fn gzip_magic(head: Seq<u8>) -> bool {
    head.len() >= 2 && head[0] == 0x1f && head[1] == 0x8b
}

/// The check of a finished archive at `out`, into which `entries` entries
/// were written: it must exist, hold at least one byte and one entry, and,
/// where it was compressed, start with the gzip magic number. `head` holds the
/// first bytes of the file.
pub fn archive(out: String, present: bool, len: u64, entries: u64, head: &Vec<u8>, compression: bool) -> (r: Result<
    String,
    AthenaError,
>)
    ensures
        !present ==> r == Err::<String, AthenaError>(AthenaError::NotWritten),
        present && (len == 0 || entries == 0) ==> r == Err::<String, AthenaError>(AthenaError::Empty),
        present && len > 0 && entries > 0 && compression && !gzip_magic(head@) ==> r == Err::<
            String,
            AthenaError,
        >(AthenaError::Invalid),
        present && len > 0 && entries > 0 && (!compression || gzip_magic(head@)) ==> (r matches Ok(p) && p@
            == out@),
{
    if !present {
        return Err(AthenaError::NotWritten);
    }
    if len == 0 || entries == 0 {
        return Err(AthenaError::Empty);
    }
    if compression && !(head.len() >= 2 && head[0] == 0x1f && head[1] == 0x8b) {
        return Err(AthenaError::Invalid);
    }
    Ok(out)
}

} // verus!
