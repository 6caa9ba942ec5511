//! Human-readable rendering of grammar failures.
//!
//! [`kind_msg`] states, character by character, the message each
//! [`ErrKind`] produces; the executable builders are proved to return
//! exactly that sequence.

use vstd::prelude::*;

use crate::chars::is_ctl;
use crate::grammar::ErrKind;
use crate::grammar::SpecErr;
use vstd::string::StringExecFns;

verus! {

/// Relies on String::push: it appends the given character to the end of
/// the string.
pub assume_specification[ String::push ](s: &mut String, c: char)
    ensures
        final(s)@ == old(s)@.push(c),
;

/// The bytes of a scanned name, read as characters.
pub open spec fn chars_of(n: Seq<u8>) -> Seq<char> {
    Seq::new(n.len(), |i: int| n[i] as char)
}

/// One lower-case hexadecimal digit.
pub open spec fn hex_digit(n: u8) -> char {
    if n < 10 {
        ((n + 48) as u8) as char
    } else {
        ((n + 87) as u8) as char
    }
}

/// How a control byte is displayed: `[control character 0x..]`, without a
/// leading zero on its hex form.
pub open spec fn ctl_repr(b: u8) -> Seq<char> {
    "[control character 0x"@ + (if b < 16 {
        seq![hex_digit(b)]
    } else {
        seq![hex_digit(b / 16), hex_digit(b % 16)]
    }) + "]"@
}

/// How the byte found at a failure site is displayed: the character
/// itself, a control-character form, or `[document end]`.
pub open spec fn found_repr(f: Option<u8>) -> Seq<char> {
    match f {
        None => "[document end]"@,
        Some(b) => if is_ctl(b) {
            ctl_repr(b)
        } else {
            seq![b as char]
        },
    }
}

/// The message each failure kind renders to.
pub open spec fn kind_msg(k: ErrKind) -> Seq<char> {
    match k {
        ErrKind::Expected { what, byte, found } => "Expected "@ + what + " '"@ + seq![
            byte as char,
        ] + "', found '"@ + found_repr(found) + "'"@,
        ErrKind::AfterNodeStart => "Expected something after start of node"@,
        ErrKind::DoctypeOrComment => "Expected doctype declaration or comment"@,
        ErrKind::ExpectedAlnum { found } => "Expected alphanumeric, found '"@ + found_repr(found)
            + "'"@,
        ErrKind::DuplicateAttribute => "Element has two attributes with the same name"@,
        ErrKind::MissingClosingTag { name } => "Expected matching closing tag for "@ + chars_of(
            name,
        ),
        ErrKind::MismatchedClosingTag { opened, closed } => "Mismatched closing tag: Expected '"@
            + chars_of(opened) + "', found '"@ + chars_of(closed) + "'"@,
        ErrKind::ExpectedAttrName => "Expected attribute name"@,
        ErrKind::CtlByte { byte } => "Unexpected control character "@ + ctl_repr(byte),
        ErrKind::AfterAttrName => "Expected something after attribute name"@,
        ErrKind::AttrValueAfterEq => "Expected attribute value after ="@,
        ErrKind::CommentStart => "Comments may not start with '>' or '->'"@,
        ErrKind::CommentDoubleDash => "Comments may not contain '--'"@,
        ErrKind::CommentCloser => "Expected comment tag closer '-->'"@,
        ErrKind::DoctypeCloser => "Expected DOCTYPE tag closer '>'"@,
        ErrKind::ForeignCloser { name } => "Expected closing tag </"@ + chars_of(name) + ">"@,
    }
}

/// A failure on its way up the call chain: the rendered message and the
/// byte offset of the failure site.
pub struct Failure {
    pub msg: String,
    pub at: usize,
}

impl Failure {
    /// Whether this failure carries exactly what the grammar reported.
    pub open spec fn matches(&self, e: SpecErr) -> bool {
        self.msg@ == kind_msg(e.kind) && self.at == e.at
    }
}

fn hex_char(n: u8) -> (r: char)
    requires
        n < 16,
    ensures
        r == hex_digit(n),
{
    if n < 10 {
        (n + 48) as char
    } else {
        (n + 87) as char
    }
}

fn push_ctl_repr(m: &mut String, b: u8)
    ensures
        final(m)@ == old(m)@ + ctl_repr(b),
{
    m.append("[control character 0x");
    if b < 16 {
        m.push(hex_char(b));
    } else {
        m.push(hex_char(b / 16));
        m.push(hex_char(b % 16));
    }
    m.append("]");
    assert(m@ =~= old(m)@ + ctl_repr(b));
}

fn push_found(m: &mut String, f: Option<u8>)
    ensures
        final(m)@ == old(m)@ + found_repr(f),
{
    match f {
        None => {
            m.append("[document end]");
        },
        Some(b) => {
            if crate::chars::byte_is_ctl(b) {
                push_ctl_repr(m, b);
            } else {
                m.push(b as char);
                assert(m@ =~= old(m)@ + found_repr(f));
            }
        },
    }
}

fn push_name(m: &mut String, n: &[u8])
    ensures
        final(m)@ == old(m)@ + chars_of(n@),
{
    let len = n.len();
    let mut i: usize = 0;
    while i < len
        invariant
            len == n@.len(),
            i <= len,
            m@ == old(m)@ + chars_of(n@).take(i as int),
        decreases len - i,
    {
        m.push(n[i] as char);
        assert(m@ =~= old(m)@ + chars_of(n@).take(i + 1));
        i += 1;
    }
    assert(chars_of(n@).take(len as int) =~= chars_of(n@));
}

/// Renders the message of [`ErrKind::Expected`].
pub fn msg_expected(what: &str, byte: u8, found: Option<u8>) -> (r: String)
    ensures
        r@ == kind_msg(ErrKind::Expected { what: what@, byte, found }),
{
    let mut m = String::new();
    m.append("Expected ");
    m.append(what);
    m.append(" '");
    m.push(byte as char);
    m.append("', found '");
    push_found(&mut m, found);
    m.append("'");
    assert(m@ =~= kind_msg(ErrKind::Expected { what: what@, byte, found }));
    m
}

/// Renders the message of [`ErrKind::ExpectedAlnum`].
pub fn msg_expected_alnum(found: Option<u8>) -> (r: String)
    ensures
        r@ == kind_msg(ErrKind::ExpectedAlnum { found }),
{
    let mut m = String::new();
    m.append("Expected alphanumeric, found '");
    push_found(&mut m, found);
    m.append("'");
    assert(m@ =~= kind_msg(ErrKind::ExpectedAlnum { found }));
    m
}

/// Renders the message of [`ErrKind::MissingClosingTag`].
pub fn msg_missing_closing_tag(name: &[u8]) -> (r: String)
    ensures
        r@ == kind_msg(ErrKind::MissingClosingTag { name: name@ }),
{
    let mut m = String::new();
    m.append("Expected matching closing tag for ");
    push_name(&mut m, name);
    assert(m@ =~= kind_msg(ErrKind::MissingClosingTag { name: name@ }));
    m
}

/// Renders the message of [`ErrKind::MismatchedClosingTag`].
pub fn msg_mismatched_closing_tag(opened: &[u8], closed: &[u8]) -> (r: String)
    ensures
        r@ == kind_msg(ErrKind::MismatchedClosingTag { opened: opened@, closed: closed@ }),
{
    let mut m = String::new();
    m.append("Mismatched closing tag: Expected '");
    push_name(&mut m, opened);
    m.append("', found '");
    push_name(&mut m, closed);
    m.append("'");
    assert(m@ =~= kind_msg(
        ErrKind::MismatchedClosingTag { opened: opened@, closed: closed@ },
    ));
    m
}

/// Renders the message of [`ErrKind::CtlByte`].
pub fn msg_ctl_byte(byte: u8) -> (r: String)
    ensures
        r@ == kind_msg(ErrKind::CtlByte { byte }),
{
    let mut m = String::new();
    m.append("Unexpected control character ");
    push_ctl_repr(&mut m, byte);
    assert(m@ =~= kind_msg(ErrKind::CtlByte { byte }));
    m
}

/// Renders the message of [`ErrKind::ForeignCloser`].
pub fn msg_foreign_closer(name: &[u8]) -> (r: String)
    ensures
        r@ == kind_msg(ErrKind::ForeignCloser { name: name@ }),
{
    let mut m = String::new();
    m.append("Expected closing tag </");
    push_name(&mut m, name);
    m.append(">");
    assert(m@ =~= kind_msg(ErrKind::ForeignCloser { name: name@ }));
    m
}

/// Renders the message of a failure kind that carries no data.
pub fn msg_plain(text: &str) -> (r: String)
    ensures
        r@ == text@,
{
    let mut m = String::new();
    m.append(text);
    assert(m@ =~= text@);
    m
}

} // verus!
