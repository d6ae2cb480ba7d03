//! Reference semantics of the plist parser: a scanner that turns the
//! restricted XML dialect into structural events, and a builder that folds
//! those events into a tree with an explicit stack.  The executable parser
//! is proved to return exactly what this account says.

use vstd::prelude::*;

use crate::chars::skip_ws;
use crate::tree::TreeShape;

verus! {

/// The word `w` stands verbatim at position `i`.
pub open spec fn lit_here(s: Seq<char>, i: int, w: Seq<char>) -> bool {
    0 <= i && i + w.len() <= s.len() && s.subrange(i, i + w.len()) == w
}

/// First position at or after `i` where `pat` stands, if any.
pub open spec fn find_at(s: Seq<char>, i: int, pat: Seq<char>) -> Option<int>
    decreases s.len() - i,
{
    if !(0 <= i <= s.len()) {
        None
    } else if lit_here(s, i, pat) {
        Some(i)
    } else if i < s.len() {
        find_at(s, i + 1, pat)
    } else {
        None
    }
}

pub proof fn lemma_find_at_bounds(s: Seq<char>, i: int, pat: Seq<char>)
    ensures
        find_at(s, i, pat) matches Some(j) ==> i <= j && 0 <= j && j + pat.len() <= s.len(),
    decreases s.len() - i,
{
    if 0 <= i <= s.len() && !lit_here(s, i, pat) && i < s.len() {
        lemma_find_at_bounds(s, i + 1, pat);
    }
}

// --- character reference decoding ---

pub open spec fn is_digit(c: char) -> bool {
    '0' as u32 <= c as u32 && c as u32 <= '9' as u32
}

/// Lowercase hexadecimal digits, as the hexadecimal reference pattern uses.
pub open spec fn is_hex_digit(c: char) -> bool {
    is_digit(c) || ('a' as u32 <= c as u32 && c as u32 <= 'f' as u32)
}

pub open spec fn digit_val(c: char) -> int {
    (c as u32) as int - ('0' as u32) as int
}

pub open spec fn hex_digit_val(c: char) -> int {
    if is_digit(c) {
        digit_val(c)
    } else {
        (c as u32) as int - ('a' as u32) as int + 10
    }
}

/// End of the run of decimal digits starting at `i`.
pub open spec fn dec_run_end(s: Seq<char>, i: int) -> int
    decreases s.len() - i,
{
    if 0 <= i < s.len() && is_digit(s[i]) {
        dec_run_end(s, i + 1)
    } else {
        i
    }
}

/// End of the run of lowercase hexadecimal digits starting at `i`.
pub open spec fn hex_run_end(s: Seq<char>, i: int) -> int
    decreases s.len() - i,
{
    if 0 <= i < s.len() && is_hex_digit(s[i]) {
        hex_run_end(s, i + 1)
    } else {
        i
    }
}

/// Value of the decimal digits from `i` up to `j`.
pub open spec fn dec_val(s: Seq<char>, i: int, j: int) -> int
    decreases j - i,
{
    if j <= i {
        0
    } else {
        dec_val(s, i, j - 1) * 10 + digit_val(s[j - 1])
    }
}

/// Value of the hexadecimal digits from `i` up to `j`.
pub open spec fn hex_val_run(s: Seq<char>, i: int, j: int) -> int
    decreases j - i,
{
    if j <= i {
        0
    } else {
        hex_val_run(s, i, j - 1) * 16 + hex_digit_val(s[j - 1])
    }
}

/// The failures the parser can report.
pub enum PlistErrKind {
    /// A value was expected but the character is no `<`.
    ExpectedTag,
    /// The input ends right after a `<`.
    UnexpectedEnd,
    /// A closing tag other than `</plist>`, `</dict>` or `</array>`.
    UnexpectedClosedTag,
    /// An opening tag outside the dialect's vocabulary.
    UnexpectedOpenedTag,
    /// A construct's terminator never arrives.
    Unterminated,
    /// A decimal character reference too large for a code point.
    BadDecimal,
    /// A decimal character reference naming no character.
    BadDecimalChar,
    /// A hexadecimal character reference too large for a code point.
    BadHex,
    /// A hexadecimal character reference naming no character.
    BadHexChar,
    /// A value where none can go.
    UnexpectedValue,
    /// A `<key>` outside a dict, or a second key before a value.
    UnexpectedKey,
    /// A close event not matching the open construct.
    UnexpectedClose,
    /// A further top-level value after the root was complete.
    TooManyRoots,
    /// End of input with the root still open or never seen.
    Unclosed,
}

/// A decimal character reference (`&#N;`) stands at `i`: at least one digit,
/// terminated by a semicolon.
pub open spec fn dec_ref_at(s: Seq<char>, i: int) -> bool {
    &&& 0 <= i && i + 2 <= s.len()
    &&& s[i] == '&'
    &&& s[i + 1] == '#'
    &&& dec_run_end(s, i + 2) > i + 2
    &&& dec_run_end(s, i + 2) < s.len()
    &&& s[dec_run_end(s, i + 2)] == ';'
}

/// First pass: resolve decimal character references, left to right.
pub open spec fn dec_pass_from(s: Seq<char>, i: int) -> Result<Seq<char>, PlistErrKind>
    decreases s.len() - i,
{
    if !(0 <= i < s.len()) {
        Ok(Seq::empty())
    } else if dec_ref_at(s, i) {
        let e = dec_run_end(s, i + 2);
        let v = dec_val(s, i + 2, e);
        if v > u32::MAX {
            Err(PlistErrKind::BadDecimal)
        } else if !vstd::utf8::is_scalar(v as u32) {
            Err(PlistErrKind::BadDecimalChar)
        } else {
            match dec_pass_from(s, e + 1) {
                Ok(r) => Ok(seq![(v as u32) as char] + r),
                Err(k) => Err(k),
            }
        }
    } else {
        match dec_pass_from(s, i + 1) {
            Ok(r) => Ok(seq![s[i]] + r),
            Err(k) => Err(k),
        }
    }
}

/// A hexadecimal character reference (`&#xN;`, lowercase digits) at `i`.
pub open spec fn hex_ref_at(s: Seq<char>, i: int) -> bool {
    &&& 0 <= i && i + 3 <= s.len()
    &&& s[i] == '&'
    &&& s[i + 1] == '#'
    &&& s[i + 2] == 'x'
    &&& hex_run_end(s, i + 3) > i + 3
    &&& hex_run_end(s, i + 3) < s.len()
    &&& s[hex_run_end(s, i + 3)] == ';'
}

/// Second pass: resolve hexadecimal character references.
pub open spec fn hex_pass_from(s: Seq<char>, i: int) -> Result<Seq<char>, PlistErrKind>
    decreases s.len() - i,
{
    if !(0 <= i < s.len()) {
        Ok(Seq::empty())
    } else if hex_ref_at(s, i) {
        let e = hex_run_end(s, i + 3);
        let v = hex_val_run(s, i + 3, e);
        if v > u32::MAX {
            Err(PlistErrKind::BadHex)
        } else if !vstd::utf8::is_scalar(v as u32) {
            Err(PlistErrKind::BadHexChar)
        } else {
            match hex_pass_from(s, e + 1) {
                Ok(r) => Ok(seq![(v as u32) as char] + r),
                Err(k) => Err(k),
            }
        }
    } else {
        match hex_pass_from(s, i + 1) {
            Ok(r) => Ok(seq![s[i]] + r),
            Err(k) => Err(k),
        }
    }
}

/// Lengths of the dialect's fixed words, for termination and bounds proofs.
pub proof fn plist_lit_lens()
    ensures
        "?>"@.len() == 2,
        "-->"@.len() == 3,
        ">"@.len() == 1,
        "</"@.len() == 2,
        "--"@.len() == 2,
        "plist"@.len() == 5,
        "dict"@.len() == 4,
        "array"@.len() == 5,
        "key"@.len() == 3,
        "string"@.len() == 6,
        "real"@.len() == 4,
        "integer"@.len() == 7,
        "date"@.len() == 4,
        "data"@.len() == 4,
        "true"@.len() == 4,
        "false"@.len() == 5,
        "&amp;"@.len() == 5,
        "&lt;"@.len() == 4,
        "&gt;"@.len() == 4,
        "&quot;"@.len() == 6,
        "&apos;"@.len() == 6,
{
    reveal_strlit("?>");
    reveal_strlit("-->");
    reveal_strlit(">");
    reveal_strlit("</");
    reveal_strlit("--");
    reveal_strlit("plist");
    reveal_strlit("dict");
    reveal_strlit("array");
    reveal_strlit("key");
    reveal_strlit("string");
    reveal_strlit("real");
    reveal_strlit("integer");
    reveal_strlit("date");
    reveal_strlit("data");
    reveal_strlit("true");
    reveal_strlit("false");
    reveal_strlit("&amp;");
    reveal_strlit("&lt;");
    reveal_strlit("&gt;");
    reveal_strlit("&quot;");
    reveal_strlit("&apos;");
}

/// The named entity standing at `i`, with its length.  `&apos;` maps to a
/// backslash: the decode table's deliberate mis-encoding of the apostrophe,
/// kept as the reference behaviour.
pub open spec fn named_at(s: Seq<char>, i: int) -> Option<(char, int)> {
    if lit_here(s, i, "&amp;"@) {
        Some(('&', 5))
    } else if lit_here(s, i, "&lt;"@) {
        Some(('<', 4))
    } else if lit_here(s, i, "&gt;"@) {
        Some(('>', 4))
    } else if lit_here(s, i, "&quot;"@) {
        Some(('"', 6))
    } else if lit_here(s, i, "&apos;"@) {
        Some(('\\', 6))
    } else {
        None
    }
}

/// Third pass: resolve the named entities.
pub open spec fn named_pass_from(s: Seq<char>, i: int) -> Seq<char>
    decreases s.len() - i,
    via named_pass_dec
{
    if !(0 <= i < s.len()) {
        Seq::empty()
    } else {
        match named_at(s, i) {
            Some((c, n)) => seq![c] + named_pass_from(s, i + n),
            None => seq![s[i]] + named_pass_from(s, i + 1),
        }
    }
}

#[via_fn]
proof fn named_pass_dec(s: Seq<char>, i: int) {
    plist_lit_lens();
}

/// Full entity decoding: decimal references, then hexadecimal references,
/// then named entities, each pass over the whole text in that fixed order.
pub open spec fn decode_entities(s: Seq<char>) -> Result<Seq<char>, PlistErrKind> {
    match dec_pass_from(s, 0) {
        Ok(a) => match hex_pass_from(a, 0) {
            Ok(b) => Ok(named_pass_from(b, 0)),
            Err(k) => Err(k),
        },
        Err(k) => Err(k),
    }
}

// --- the scanner ---

/// Structural events the scanner emits.
pub enum PlistEv {
    EvStr(Seq<char>),
    EvBool(bool),
    EvEnterDict,
    EvKey(Seq<char>),
    EvCloseDict,
    EvEnterArray,
    EvCloseArray,
    EvEof,
}

/// One scanner step: an event and the position after it, or a failure at a
/// position.  `tag` carries the offending tag name for an unexpected
/// opened tag, and is empty for every other failure.
pub enum EvStep {
    ESome { ev: PlistEv, next: int },
    EErr { kind: PlistErrKind, at: int, tag: Seq<char> },
}

/// The text content of a value tag: empty for a self-closing tag, otherwise
/// everything up to the matching `</`, entity-decoded, with the closing tag
/// skipped up to its `>`.
pub open spec fn tag_value(s: Seq<char>, after: int, is_closed: bool) -> Result<(Seq<char>, int),
    (PlistErrKind, int),
> {
    if is_closed {
        Ok((Seq::empty(), after))
    } else {
        match find_at(s, after, "</"@) {
            None => Err((PlistErrKind::Unterminated, after)),
            Some(j) => match find_at(s, j + 2, ">"@) {
                None => Err((PlistErrKind::Unterminated, after)),
                Some(j2) => match decode_entities(s.subrange(after, j)) {
                    Ok(t) => Ok((t, j2 + 1)),
                    Err(k) => Err((k, after)),
                },
            },
        }
    }
}

/// The scanner: the next structural event at or after `i`.  Processing
/// instructions, comments, declarations and the `<plist …>` wrapper are
/// skipped; a leaf tag's category collapses to text, `<true/>` and
/// `<false/>` to booleans.  An unterminated construct is a hard error.
pub open spec fn next_event(s: Seq<char>, i: int) -> EvStep
    decreases s.len() - i,
    via next_event_dec
{
    let q = skip_ws(s, i);
    if !(0 <= q < s.len()) {
        EvStep::ESome { ev: PlistEv::EvEof, next: q }
    } else if s[q] != '<' {
        EvStep::EErr { kind: PlistErrKind::ExpectedTag, at: q, tag: Seq::empty() }
    } else if q + 1 >= s.len() {
        EvStep::EErr { kind: PlistErrKind::UnexpectedEnd, at: q + 1, tag: Seq::empty() }
    } else {
        let c = s[q + 1];
        if c == '?' {
            match find_at(s, q + 2, "?>"@) {
                Some(j) => next_event(s, j + 2),
                None => EvStep::EErr { kind: PlistErrKind::Unterminated, at: q, tag: Seq::empty() },
            }
        } else if c == '!' {
            if lit_here(s, q + 2, "--"@) {
                match find_at(s, q + 2, "-->"@) {
                    Some(j) => next_event(s, j + 3),
                    None => EvStep::EErr { kind: PlistErrKind::Unterminated, at: q, tag: Seq::empty() },
                }
            } else {
                match find_at(s, q + 2, ">"@) {
                    Some(j) => next_event(s, j + 1),
                    None => EvStep::EErr { kind: PlistErrKind::Unterminated, at: q, tag: Seq::empty() },
                }
            }
        } else if c == '/' {
            let p = skip_ws(s, q + 2);
            if lit_here(s, p, "plist"@) {
                match find_at(s, p, ">"@) {
                    Some(j) => next_event(s, j + 1),
                    None => EvStep::EErr { kind: PlistErrKind::Unterminated, at: q, tag: Seq::empty() },
                }
            } else if lit_here(s, p, "dict"@) {
                match find_at(s, p, ">"@) {
                    Some(j) => EvStep::ESome { ev: PlistEv::EvCloseDict, next: j + 1 },
                    None => EvStep::EErr { kind: PlistErrKind::Unterminated, at: q, tag: Seq::empty() },
                }
            } else if lit_here(s, p, "array"@) {
                match find_at(s, p, ">"@) {
                    Some(j) => EvStep::ESome { ev: PlistEv::EvCloseArray, next: j + 1 },
                    None => EvStep::EErr { kind: PlistErrKind::Unterminated, at: q, tag: Seq::empty() },
                }
            } else {
                EvStep::EErr { kind: PlistErrKind::UnexpectedClosedTag, at: p, tag: Seq::empty() }
            }
        } else {
            match find_at(s, q + 1, ">"@) {
                None => EvStep::EErr { kind: PlistErrKind::Unterminated, at: q, tag: Seq::empty() },
                Some(j) => {
                    let rawname = s.subrange(q + 1, j);
                    let is_closed = rawname.len() > 0 && rawname.last() == '/';
                    let name = if is_closed {
                        rawname.drop_last()
                    } else {
                        rawname
                    };
                    if name == "dict"@ {
                        EvStep::ESome { ev: PlistEv::EvEnterDict, next: j + 1 }
                    } else if name == "array"@ {
                        EvStep::ESome { ev: PlistEv::EvEnterArray, next: j + 1 }
                    } else if name == "key"@ {
                        match tag_value(s, j + 1, is_closed) {
                            Ok((t, n)) => EvStep::ESome { ev: PlistEv::EvKey(t), next: n },
                            Err((k, at)) => EvStep::EErr { kind: k, at, tag: Seq::empty() },
                        }
                    } else if name == "string"@ || name == "real"@ || name == "integer"@ || name
                        == "date"@ || name == "data"@ {
                        match tag_value(s, j + 1, is_closed) {
                            Ok((t, n)) => EvStep::ESome { ev: PlistEv::EvStr(t), next: n },
                            Err((k, at)) => EvStep::EErr { kind: k, at, tag: Seq::empty() },
                        }
                    } else if name == "true"@ {
                        EvStep::ESome { ev: PlistEv::EvBool(true), next: j + 1 }
                    } else if name == "false"@ {
                        EvStep::ESome { ev: PlistEv::EvBool(false), next: j + 1 }
                    } else if lit_here(s, q + 1, "plist"@) {
                        next_event(s, j + 1)
                    } else {
                        EvStep::EErr { kind: PlistErrKind::UnexpectedOpenedTag, at: j + 1, tag: name }
                    }
                },
            }
        }
    }
}

#[via_fn]
proof fn next_event_dec(s: Seq<char>, i: int) {
    plist_lit_lens();
    crate::chars::lemma_skip_ws_bounds_any(s, i);
    let q = skip_ws(s, i);
    if 0 <= q < s.len() && s[q] == '<' && q + 1 < s.len() {
        lemma_find_at_bounds(s, q + 2, "?>"@);
        lemma_find_at_bounds(s, q + 2, "-->"@);
        lemma_find_at_bounds(s, q + 2, ">"@);
        lemma_find_at_bounds(s, q + 1, ">"@);
        let p = skip_ws(s, q + 2);
        crate::chars::lemma_skip_ws_bounds_any(s, q + 2);
        lemma_find_at_bounds(s, p, ">"@);
    }
}

/// A scanner event always moves forward and stays inside the text.
pub proof fn lemma_next_event_bounds(s: Seq<char>, i: int)
    requires
        0 <= i <= s.len(),
    ensures
        next_event(s, i) matches EvStep::ESome { ev, next } ==> i <= next <= s.len(),
        next_event(s, i) matches EvStep::ESome { ev, next } ==> (!(ev is EvEof) ==> i < next),
        next_event(s, i) matches EvStep::EErr { kind, at, tag } ==> 0 <= at <= s.len(),
    decreases s.len() - i,
{
    plist_lit_lens();
    crate::chars::lemma_skip_ws_bounds(s, i);
    let q = skip_ws(s, i);
    if 0 <= q < s.len() && s[q] == '<' && q + 1 < s.len() {
        lemma_find_at_bounds(s, q + 2, "?>"@);
        lemma_find_at_bounds(s, q + 2, "-->"@);
        lemma_find_at_bounds(s, q + 2, ">"@);
        lemma_find_at_bounds(s, q + 1, ">"@);
        let p = skip_ws(s, q + 2);
        crate::chars::lemma_skip_ws_bounds_any(s, q + 2);
        lemma_find_at_bounds(s, p, ">"@);
        let c = s[q + 1];
        if c == '?' {
            if let Some(j) = find_at(s, q + 2, "?>"@) {
                lemma_next_event_bounds(s, j + 2);
            }
        } else if c == '!' {
            if lit_here(s, q + 2, "--"@) {
                if let Some(j) = find_at(s, q + 2, "-->"@) {
                    lemma_next_event_bounds(s, j + 3);
                }
            } else {
                if let Some(j) = find_at(s, q + 2, ">"@) {
                    lemma_next_event_bounds(s, j + 1);
                }
            }
        } else if c == '/' {
            if lit_here(s, p, "plist"@) {
                if let Some(j) = find_at(s, p, ">"@) {
                    lemma_next_event_bounds(s, j + 1);
                }
            }
        } else {
            if let Some(j) = find_at(s, q + 1, ">"@) {
                lemma_find_at_bounds(s, j + 2, "</"@);
                if let Some(j2) = find_at(s, j + 2, "</"@) {
                    lemma_find_at_bounds(s, j2 + 2, ">"@);
                }
                lemma_find_at_bounds(s, j + 1, "</"@);
                if let Some(j2) = find_at(s, j + 1, "</"@) {
                    lemma_find_at_bounds(s, j2 + 2, ">"@);
                }
                if lit_here(s, q + 1, "plist"@) {
                    lemma_next_event_bounds(s, j + 1);
                }
            }
        }
    }
}

// --- the builder ---

/// One open construct on the builder stack.  A completed root becomes
/// `PDone`, which only ever stands alone.
pub enum PFrame {
    PArr { items: Seq<TreeShape> },
    PDict { entries: Map<Seq<char>, TreeShape>, pending: Option<Seq<char>> },
    PDone { v: TreeShape },
}

/// Whether the stack can accept a value right now.
pub open spec fn p_value_pos(stack: Seq<PFrame>) -> bool {
    if stack.len() == 0 {
        true
    } else {
        match stack.last() {
            PFrame::PArr { items } => true,
            PFrame::PDict { entries, pending } => pending is Some,
            PFrame::PDone { v } => false,
        }
    }
}

/// Hand a completed value to the stack.
pub open spec fn p_deliver(stack: Seq<PFrame>, v: TreeShape) -> Option<Seq<PFrame>> {
    if stack.len() == 0 {
        Some(seq![PFrame::PDone { v }])
    } else {
        match stack.last() {
            PFrame::PArr { items } => Some(
                stack.drop_last().push(PFrame::PArr { items: items.push(v) }),
            ),
            PFrame::PDict { entries, pending } => match pending {
                Some(k) => Some(
                    stack.drop_last().push(
                        PFrame::PDict { entries: entries.insert(k, v), pending: None },
                    ),
                ),
                None => None,
            },
            PFrame::PDone { v: r } => None,
        }
    }
}

/// The error a value gets in a position that cannot accept it.
pub open spec fn p_refuse(stack: Seq<PFrame>) -> PlistErrKind {
    if stack.len() > 0 && stack.last() is PDone {
        PlistErrKind::TooManyRoots
    } else {
        PlistErrKind::UnexpectedValue
    }
}

/// One event fed to the builder stack.
pub open spec fn p_feed(stack: Seq<PFrame>, ev: PlistEv) -> Result<Seq<PFrame>, PlistErrKind> {
    match ev {
        PlistEv::EvStr(t) => match p_deliver(stack, TreeShape::Text(t)) {
            Some(st) => Ok(st),
            None => Err(p_refuse(stack)),
        },
        PlistEv::EvBool(b) => match p_deliver(stack, TreeShape::Bool(b)) {
            Some(st) => Ok(st),
            None => Err(p_refuse(stack)),
        },
        PlistEv::EvEnterDict => {
            if p_value_pos(stack) {
                Ok(stack.push(PFrame::PDict { entries: Map::empty(), pending: None }))
            } else {
                Err(p_refuse(stack))
            }
        },
        PlistEv::EvEnterArray => {
            if p_value_pos(stack) {
                Ok(stack.push(PFrame::PArr { items: Seq::empty() }))
            } else {
                Err(p_refuse(stack))
            }
        },
        PlistEv::EvKey(k) => {
            if stack.len() > 0 && (stack.last() matches PFrame::PDict {
                entries: _,
                pending: None,
            }) {
                let entries = stack.last()->PDict_entries;
                Ok(
                    stack.drop_last().push(
                        PFrame::PDict { entries, pending: Some(k) },
                    ),
                )
            } else {
                Err(PlistErrKind::UnexpectedKey)
            }
        },
        PlistEv::EvCloseDict => {
            if stack.len() > 0 && (stack.last() matches PFrame::PDict {
                entries: _,
                pending: None,
            }) {
                let entries = stack.last()->PDict_entries;
                match p_deliver(stack.drop_last(), TreeShape::Obj(entries)) {
                    Some(st) => Ok(st),
                    None => Err(PlistErrKind::UnexpectedClose),
                }
            } else {
                Err(PlistErrKind::UnexpectedClose)
            }
        },
        PlistEv::EvCloseArray => {
            if stack.len() > 0 && stack.last() is PArr {
                let items = stack.last()->PArr_items;
                match p_deliver(stack.drop_last(), TreeShape::Arr(items)) {
                    Some(st) => Ok(st),
                    None => Err(PlistErrKind::UnexpectedClose),
                }
            } else {
                Err(PlistErrKind::UnexpectedClose)
            }
        },
        PlistEv::EvEof => Err(PlistErrKind::Unclosed),
    }
}

/// A failed parse: the kind, the character position it is reported at,
/// and, for an unexpected opened tag, the offending tag name (else empty).
pub struct PlistErr {
    pub kind: PlistErrKind,
    pub at: int,
    pub tag: Seq<char>,
}

/// Run scanner and builder from position `i`.  At end of input the stack
/// must hold exactly the completed root.
pub open spec fn plist_run(s: Seq<char>, i: int, stack: Seq<PFrame>) -> Result<TreeShape, PlistErr>
    decreases s.len() - i,
    via plist_run_dec
{
    match next_event(s, i) {
        EvStep::EErr { kind, at, tag } => Err(PlistErr { kind, at, tag }),
        EvStep::ESome { ev, next } => {
            if ev is EvEof {
                if stack.len() == 1 && stack[0] is PDone {
                    Ok(stack[0]->PDone_v)
                } else {
                    Err(PlistErr { kind: PlistErrKind::Unclosed, at: next, tag: Seq::empty() })
                }
            } else {
                match p_feed(stack, ev) {
                    Ok(st2) => plist_run(s, next, st2),
                    Err(kind) => Err(PlistErr { kind, at: next, tag: Seq::empty() }),
                }
            }
        },
    }
}

#[via_fn]
proof fn plist_run_dec(s: Seq<char>, i: int, stack: Seq<PFrame>) {
    if 0 <= i <= s.len() {
        lemma_next_event_bounds(s, i);
    } else {
        crate::chars::lemma_skip_ws_bounds_any(s, i);
    }
}

/// The whole parse of a text: a leading byte-order mark is tolerated.
pub open spec fn spec_plist(s: Seq<char>) -> Result<TreeShape, PlistErr> {
    let start: int = if s.len() > 0 && s[0] == '\u{feff}' {
        1
    } else {
        0
    };
    plist_run(s, start, Seq::empty())
}

} // verus!
