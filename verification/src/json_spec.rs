//! Reference semantics of the JSON debug parser: a token-by-token account
//! of what the tokenizer and the stack parser do, over plain character
//! sequences.  The executable parser is proved to return exactly what this
//! account says.

use vstd::prelude::*;

use crate::chars::is_ws;
use crate::chars::loc_at;
use crate::chars::skip_ws;
use crate::document::Location;
use crate::tree::TreeShape;

verus! {

/// Tokens of the JSON dialect.  String tokens carry their raw, undecoded
/// content; number tokens carry the literal text verbatim.
pub enum JsonTok {
    TStr { raw: Seq<char> },
    TNum { text: Seq<char> },
    TNull,
    TTrue,
    TFalse,
    LSquare,
    LCurly,
    RSquare,
    RCurly,
    Colon,
    Comma,
}

/// Scan a string token's raw content, starting just after the opening quote.
/// A backslash unconditionally skips the following character from quote
/// detection; end of input before a closing quote means no token.  Yields
/// the raw content and the position just after the closing quote.
pub open spec fn scan_string(s: Seq<char>, i: int) -> Option<(Seq<char>, int)>
    decreases s.len() - i,
{
    if i < 0 || i >= s.len() {
        None
    } else if s[i] == '"' {
        Some((Seq::empty(), i + 1))
    } else if s[i] == '\\' {
        if i + 1 >= s.len() {
            None
        } else {
            match scan_string(s, i + 2) {
                Some((raw, j)) => Some((seq![s[i], s[i + 1]] + raw, j)),
                None => None,
            }
        }
    } else {
        match scan_string(s, i + 1) {
            Some((raw, j)) => Some((seq![s[i]] + raw, j)),
            None => None,
        }
    }
}

/// The word `w` stands verbatim at position `i`.
pub open spec fn lit_at(s: Seq<char>, i: int, w: Seq<char>) -> bool {
    0 <= i && i + w.len() <= s.len() && s.subrange(i, i + w.len()) == w
}

/// Characters the number scanner consumes greedily.
pub open spec fn is_num_char(c: char) -> bool {
    c == '.' || ('0' as u32 <= c as u32 && c as u32 <= '9' as u32) || c == 'e' || c == 'E'
        || c == '+' || c == '-'
}

/// End of the greedy run of number characters starting at `i`.
pub open spec fn scan_num_end(s: Seq<char>, i: int) -> int
    decreases s.len() - i,
{
    if 0 <= i < s.len() && is_num_char(s[i]) {
        scan_num_end(s, i + 1)
    } else {
        i
    }
}

/// One step of the tokenizer: either the next token with its start and the
/// position after it, or no further well-formed token (end of input, an
/// unterminated string, or a misspelled literal keyword all look alike).
pub enum TokStep {
    TEnd { at: int },
    TTok { tok: JsonTok, start: int, next: int },
}

/// The tokenizer.  Any character that starts no other token is treated as
/// the start of a number: it is consumed unconditionally and the number
/// character class is then taken greedily, with no validation.
pub open spec fn next_token(s: Seq<char>, i: int) -> TokStep {
    let q = skip_ws(s, i);
    if !(0 <= q < s.len()) {
        TokStep::TEnd { at: q }
    } else {
        let c = s[q];
        if c == '"' {
            match scan_string(s, q + 1) {
                Some((raw, j)) => TokStep::TTok { tok: JsonTok::TStr { raw }, start: q, next: j },
                None => TokStep::TEnd { at: q },
            }
        } else if c == '[' {
            TokStep::TTok { tok: JsonTok::LSquare, start: q, next: q + 1 }
        } else if c == '{' {
            TokStep::TTok { tok: JsonTok::LCurly, start: q, next: q + 1 }
        } else if c == ']' {
            TokStep::TTok { tok: JsonTok::RSquare, start: q, next: q + 1 }
        } else if c == '}' {
            TokStep::TTok { tok: JsonTok::RCurly, start: q, next: q + 1 }
        } else if c == ':' {
            TokStep::TTok { tok: JsonTok::Colon, start: q, next: q + 1 }
        } else if c == ',' {
            TokStep::TTok { tok: JsonTok::Comma, start: q, next: q + 1 }
        } else if c == 'n' {
            if lit_at(s, q, seq!['n', 'u', 'l', 'l']) {
                TokStep::TTok { tok: JsonTok::TNull, start: q, next: q + 4 }
            } else {
                TokStep::TEnd { at: q }
            }
        } else if c == 't' {
            if lit_at(s, q, seq!['t', 'r', 'u', 'e']) {
                TokStep::TTok { tok: JsonTok::TTrue, start: q, next: q + 4 }
            } else {
                TokStep::TEnd { at: q }
            }
        } else if c == 'f' {
            if lit_at(s, q, seq!['f', 'a', 'l', 's', 'e']) {
                TokStep::TTok { tok: JsonTok::TFalse, start: q, next: q + 5 }
            } else {
                TokStep::TEnd { at: q }
            }
        } else {
            let end = scan_num_end(s, q + 1);
            TokStep::TTok {
                tok: JsonTok::TNum { text: s.subrange(q, end) },
                start: q,
                next: end,
            }
        }
    }
}

// --- string escape resolution ---

/// Value of one hexadecimal digit, either case.
pub open spec fn hex_val(c: char) -> Option<int> {
    if '0' as u32 <= c as u32 && c as u32 <= '9' as u32 {
        Some(c as int - '0' as int)
    } else if 'a' as u32 <= c as u32 && c as u32 <= 'f' as u32 {
        Some(c as int - 'a' as int + 10)
    } else if 'A' as u32 <= c as u32 && c as u32 <= 'F' as u32 {
        Some(c as int - 'A' as int + 10)
    } else {
        None
    }
}

/// The character a valid `\uXXXX` escape at `i` stands for: exactly four
/// hexadecimal digits whose value is a Unicode scalar.  (A code in the
/// surrogate range is no Rust character; such an escape stays unresolved
/// and the single-character pass then rejects it.)
pub open spec fn u_escape_char(s: Seq<char>, i: int) -> Option<char> {
    if 0 <= i && i + 6 <= s.len() && s[i] == '\\' && s[i + 1] == 'u' && hex_val(s[i + 2]) is Some
        && hex_val(s[i + 3]) is Some && hex_val(s[i + 4]) is Some && hex_val(s[i + 5]) is Some {
        let v = hex_val(s[i + 2])->0 * 4096 + hex_val(s[i + 3])->0 * 256 + hex_val(s[i + 4])->0
            * 16 + hex_val(s[i + 5])->0;
        if vstd::utf8::is_scalar(v as u32) {
            Some((v as u32) as char)
        } else {
            None
        }
    } else {
        None
    }
}

/// First pass over a raw string: resolve every `\uXXXX` escape, left to
/// right, never rescanning replaced text.
pub open spec fn unicode_pass_from(s: Seq<char>, i: int) -> Seq<char>
    decreases s.len() - i,
{
    if !(0 <= i < s.len()) {
        Seq::empty()
    } else {
        match u_escape_char(s, i) {
            Some(c) => seq![c] + unicode_pass_from(s, i + 6),
            None => seq![s[i]] + unicode_pass_from(s, i + 1),
        }
    }
}

/// What a single-character escape resolves to.
pub open spec fn esc_char(c: char) -> Option<char> {
    if c == '"' {
        Some('"')
    } else if c == '\\' {
        Some('\\')
    } else if c == '/' {
        Some('/')
    } else if c == 'b' {
        Some('\u{8}')
    } else if c == 'f' {
        Some('\u{c}')
    } else if c == 'n' {
        Some('\n')
    } else if c == 'r' {
        Some('\r')
    } else if c == 't' {
        Some('\t')
    } else {
        None
    }
}

/// Second pass: resolve the single-character escapes; any other escape is a
/// hard parse error.  A lone trailing backslash is copied verbatim.
pub open spec fn escape_pass_from(s: Seq<char>, i: int) -> Option<Seq<char>>
    decreases s.len() - i,
{
    if !(0 <= i < s.len()) {
        Some(Seq::empty())
    } else if s[i] == '\\' {
        if i + 1 >= s.len() {
            Some(seq!['\\'])
        } else {
            match esc_char(s[i + 1]) {
                Some(c) => match escape_pass_from(s, i + 2) {
                    Some(r) => Some(seq![c] + r),
                    None => None,
                },
                None => None,
            }
        }
    } else {
        match escape_pass_from(s, i + 1) {
            Some(r) => Some(seq![s[i]] + r),
            None => None,
        }
    }
}

/// Full escape resolution: unicode escapes first, then single-character
/// escapes, in that fixed order.
pub open spec fn decode_escapes(raw: Seq<char>) -> Option<Seq<char>> {
    escape_pass_from(unicode_pass_from(raw, 0), 0)
}

// --- the stack parser ---

/// What an open object is waiting for next.
pub enum ObjPhase {
    /// Just after `{`: a key, or an immediate close.
    KeyOrClose,
    /// Just after a comma: a key only, so no trailing comma is accepted.
    Key,
    /// After a key: the colon.
    AfterKey { key: Seq<char> },
    /// After the colon: the entry's value.
    ObjValue { key: Seq<char> },
    /// After a completed entry: a comma or the close.
    CommaOrClose,
}

/// What an open array is waiting for next.
pub enum ArrPhase {
    /// Just after `[`: a value, or an immediate close.
    ValueOrClose,
    /// Just after a comma: a value only, so no trailing comma is accepted.
    ArrValue,
    /// After a value: a comma or the close.
    CommaOrClose,
}

/// One open construct on the parser stack.  A completed root becomes `Done`,
/// which only ever stands alone at the bottom of the stack.
pub enum SpecFrame {
    Arr { items: Seq<TreeShape>, phase: ArrPhase },
    Obj { entries: Map<Seq<char>, TreeShape>, phase: ObjPhase },
    Done { v: TreeShape },
}

/// Parser state: the open-construct stack and the table of locations
/// recorded so far, one per allocated node identifier, in allocation order.
pub struct JsonState {
    pub stack: Seq<SpecFrame>,
    pub locs: Seq<Location>,
}

/// The failures the parser can report.
pub enum JsonErrKind {
    /// A token arrived that the open construct cannot accept.
    UnexpectedToken,
    /// A string escape other than the resolved ones.
    InvalidEscape,
    /// A further top-level token after the root value was complete.
    TooManyRoots,
    /// End of input with the root still open or never seen.
    Unclosed,
}

pub enum FeedOut {
    /// `dup` notes whether this step overwrote an existing object key.
    FOk { st: JsonState, dup: bool },
    FErr { kind: JsonErrKind },
}

/// Whether the stack can accept a value right now.
pub open spec fn value_position(stack: Seq<SpecFrame>) -> bool {
    if stack.len() == 0 {
        true
    } else {
        match stack.last() {
            SpecFrame::Arr { items, phase } => phase is ValueOrClose || phase is ArrValue,
            SpecFrame::Obj { entries, phase } => phase is ObjValue,
            SpecFrame::Done { v } => false,
        }
    }
}

/// Hand a completed value to the stack: append it to an open array, bind it
/// to the pending key of an open object, or make it the finished root.  The
/// second result notes an overwritten object key.
pub open spec fn deliver(stack: Seq<SpecFrame>, v: TreeShape) -> Option<(Seq<SpecFrame>, bool)> {
    if stack.len() == 0 {
        Some((seq![SpecFrame::Done { v }], false))
    } else {
        match stack.last() {
            SpecFrame::Arr { items, phase } => {
                if phase is ValueOrClose || phase is ArrValue {
                    Some(
                        (
                            stack.drop_last().push(
                                SpecFrame::Arr {
                                    items: items.push(v),
                                    phase: ArrPhase::CommaOrClose,
                                },
                            ),
                            false,
                        ),
                    )
                } else {
                    None
                }
            },
            SpecFrame::Obj { entries, phase } => match phase {
                ObjPhase::ObjValue { key } => Some(
                    (
                        stack.drop_last().push(
                            SpecFrame::Obj {
                                entries: entries.insert(key, v),
                                phase: ObjPhase::CommaOrClose,
                            },
                        ),
                        entries.contains_key(key),
                    ),
                ),
                _ => None,
            },
            SpecFrame::Done { v: r } => None,
        }
    }
}

/// The error a token gets in a position that cannot accept it.
pub open spec fn refuse(stack: Seq<SpecFrame>) -> FeedOut {
    if stack.len() > 0 && stack.last() is Done {
        FeedOut::FErr { kind: JsonErrKind::TooManyRoots }
    } else {
        FeedOut::FErr { kind: JsonErrKind::UnexpectedToken }
    }
}

/// A scalar value arrives: allocate its identifier (the next table slot),
/// record its location, and deliver it.
pub open spec fn feed_scalar(st: JsonState, v: TreeShape, tloc: Location) -> FeedOut {
    if value_position(st.stack) {
        match deliver(st.stack, v) {
            Some((stack2, dup)) => FeedOut::FOk {
                st: JsonState { stack: stack2, locs: st.locs.push(tloc) },
                dup,
            },
            None => refuse(st.stack),
        }
    } else {
        refuse(st.stack)
    }
}

/// A container opens: allocate its identifier and location at the opening
/// token, and push the fresh construct.
pub open spec fn feed_open(st: JsonState, fresh: SpecFrame, tloc: Location) -> FeedOut {
    if value_position(st.stack) {
        FeedOut::FOk {
            st: JsonState { stack: st.stack.push(fresh), locs: st.locs.push(tloc) },
            dup: false,
        }
    } else {
        refuse(st.stack)
    }
}

/// One token fed to the parser state.
pub open spec fn feed(st: JsonState, tok: JsonTok, tloc: Location) -> FeedOut {
    match tok {
        JsonTok::TStr { raw } => {
            if st.stack.len() > 0 && (match st.stack.last() {
                SpecFrame::Obj { entries, phase } => phase is KeyOrClose || phase is Key,
                _ => false,
            }) {
                // in key position the string is a key: no identifier
                match decode_escapes(raw) {
                    Some(key) => {
                        let f = match st.stack.last() {
                            SpecFrame::Obj { entries, phase } => SpecFrame::Obj {
                                entries,
                                phase: ObjPhase::AfterKey { key },
                            },
                            _ => st.stack.last(),
                        };
                        FeedOut::FOk {
                            st: JsonState { stack: st.stack.drop_last().push(f), locs: st.locs },
                            dup: false,
                        }
                    },
                    None => FeedOut::FErr { kind: JsonErrKind::InvalidEscape },
                }
            } else {
                match decode_escapes(raw) {
                    Some(txt) => feed_scalar(st, TreeShape::Text(txt), tloc),
                    None => FeedOut::FErr { kind: JsonErrKind::InvalidEscape },
                }
            }
        },
        JsonTok::TNum { text } => feed_scalar(st, TreeShape::Text(text), tloc),
        JsonTok::TNull => feed_scalar(st, TreeShape::Null, tloc),
        JsonTok::TTrue => feed_scalar(st, TreeShape::Bool(true), tloc),
        JsonTok::TFalse => feed_scalar(st, TreeShape::Bool(false), tloc),
        JsonTok::LCurly => feed_open(
            st,
            SpecFrame::Obj { entries: Map::empty(), phase: ObjPhase::KeyOrClose },
            tloc,
        ),
        JsonTok::LSquare => feed_open(
            st,
            SpecFrame::Arr { items: Seq::empty(), phase: ArrPhase::ValueOrClose },
            tloc,
        ),
        JsonTok::RCurly => {
            if st.stack.len() > 0 && (match st.stack.last() {
                SpecFrame::Obj { entries, phase } => phase is KeyOrClose || phase is CommaOrClose,
                _ => false,
            }) {
                let entries = st.stack.last()->Obj_entries;
                match deliver(st.stack.drop_last(), TreeShape::Obj(entries)) {
                    Some((stack2, dup)) => FeedOut::FOk {
                        st: JsonState { stack: stack2, locs: st.locs },
                        dup,
                    },
                    None => refuse(st.stack),
                }
            } else {
                refuse(st.stack)
            }
        },
        JsonTok::RSquare => {
            if st.stack.len() > 0 && (match st.stack.last() {
                SpecFrame::Arr { items, phase } => phase is ValueOrClose || phase is CommaOrClose,
                _ => false,
            }) {
                let items = st.stack.last()->Arr_items;
                match deliver(st.stack.drop_last(), TreeShape::Arr(items)) {
                    Some((stack2, dup)) => FeedOut::FOk {
                        st: JsonState { stack: stack2, locs: st.locs },
                        dup,
                    },
                    None => refuse(st.stack),
                }
            } else {
                refuse(st.stack)
            }
        },
        JsonTok::Colon => {
            if st.stack.len() > 0 && (match st.stack.last() {
                SpecFrame::Obj { entries, phase } => phase is AfterKey,
                _ => false,
            }) {
                let f = match st.stack.last() {
                    SpecFrame::Obj { entries, phase } => SpecFrame::Obj {
                        entries,
                        phase: ObjPhase::ObjValue { key: phase->AfterKey_key },
                    },
                    _ => st.stack.last(),
                };
                FeedOut::FOk {
                    st: JsonState { stack: st.stack.drop_last().push(f), locs: st.locs },
                    dup: false,
                }
            } else {
                refuse(st.stack)
            }
        },
        JsonTok::Comma => {
            if st.stack.len() > 0 {
                match st.stack.last() {
                    SpecFrame::Arr { items, phase } => {
                        if phase is CommaOrClose {
                            FeedOut::FOk {
                                st: JsonState {
                                    stack: st.stack.drop_last().push(
                                        SpecFrame::Arr { items, phase: ArrPhase::ArrValue },
                                    ),
                                    locs: st.locs,
                                },
                                dup: false,
                            }
                        } else {
                            refuse(st.stack)
                        }
                    },
                    SpecFrame::Obj { entries, phase } => {
                        if phase is CommaOrClose {
                            FeedOut::FOk {
                                st: JsonState {
                                    stack: st.stack.drop_last().push(
                                        SpecFrame::Obj { entries, phase: ObjPhase::Key },
                                    ),
                                    locs: st.locs,
                                },
                                dup: false,
                            }
                        } else {
                            refuse(st.stack)
                        }
                    },
                    SpecFrame::Done { v } => refuse(st.stack),
                }
            } else {
                refuse(st.stack)
            }
        },
    }
}

/// A successful parse: the root's shape, the location table in identifier
/// order, and whether any object key was ever overwritten.
pub struct JsonOk {
    pub shape: TreeShape,
    pub locs: Seq<Location>,
    pub dup: bool,
}

/// A failed parse: the kind, and the character position it is reported at
/// (the offending token's start, or where scanning stopped).
pub struct JsonErr {
    pub kind: JsonErrKind,
    pub at: int,
}

/// Run the parser from position `i`.  At end of input the stack must hold
/// exactly the completed root, else the input had unclosed constructs.
pub open spec fn json_run(s: Seq<char>, i: int, st: JsonState, dup: bool) -> Result<JsonOk, JsonErr>
    decreases s.len() - i,
    via json_run_dec
{
    match next_token(s, i) {
        TokStep::TEnd { at } => {
            if st.stack.len() == 1 && st.stack[0] is Done {
                Ok(JsonOk { shape: st.stack[0]->Done_v, locs: st.locs, dup })
            } else {
                Err(JsonErr { kind: JsonErrKind::Unclosed, at })
            }
        },
        TokStep::TTok { tok, start, next } => match feed(st, tok, loc_at(s, start)) {
            FeedOut::FOk { st: st2, dup: dup2 } => json_run(s, next, st2, dup || dup2),
            FeedOut::FErr { kind } => Err(JsonErr { kind, at: start }),
        },
    }
}

#[via_fn]
proof fn json_run_dec(s: Seq<char>, i: int, st: JsonState, dup: bool) {
    if 0 <= i <= s.len() {
        lemma_next_token_bounds(s, i);
    }
}

/// The whole parse of a text.
pub open spec fn spec_json(s: Seq<char>) -> Result<JsonOk, JsonErr> {
    json_run(s, 0, JsonState { stack: Seq::empty(), locs: Seq::empty() }, false)
}

// --- bounds needed for termination and for the executable mirror ---

pub proof fn lemma_scan_string_bounds(s: Seq<char>, i: int)
    requires
        0 <= i,
    ensures
        scan_string(s, i) matches Some((raw, j)) ==> i < j <= s.len(),
    decreases s.len() - i,
{
    if i < s.len() {
        if s[i] == '"' {
        } else if s[i] == '\\' {
            if i + 1 < s.len() {
                lemma_scan_string_bounds(s, i + 2);
            }
        } else {
            lemma_scan_string_bounds(s, i + 1);
        }
    }
}

pub proof fn lemma_scan_num_bounds(s: Seq<char>, i: int)
    requires
        0 <= i <= s.len(),
    ensures
        i <= scan_num_end(s, i) <= s.len(),
    decreases s.len() - i,
{
    if i < s.len() && is_num_char(s[i]) {
        lemma_scan_num_bounds(s, i + 1);
    }
}

/// Numeric fidelity: when the input holds exactly one token and it is a
/// number, the parse succeeds with a text node carrying the number literal
/// verbatim, located at the token's start.  Numbers are never converted to
/// a numeric type, so their original formatting survives.
pub proof fn lemma_number_fidelity(s: Seq<char>, text: Seq<char>, start: int, next: int)
    requires
        next_token(s, 0) == (TokStep::TTok { tok: JsonTok::TNum { text }, start, next }),
        next_token(s, next) matches TokStep::TEnd { at },
    ensures
        spec_json(s) matches Ok(out) && out.shape == TreeShape::Text(text) && out.locs == seq![
            loc_at(s, start),
        ] && !out.dup,
{
    let st0 = JsonState { stack: Seq::empty(), locs: Seq::empty() };
    let tloc = loc_at(s, start);
    assert(value_position(st0.stack));
    assert(deliver(st0.stack, TreeShape::Text(text)) == Some::<(Seq<SpecFrame>, bool)>(
        (seq![SpecFrame::Done { v: TreeShape::Text(text) }], false),
    ));
    let st1 = JsonState {
        stack: seq![SpecFrame::Done { v: TreeShape::Text(text) }],
        locs: Seq::empty().push(tloc),
    };
    assert(feed(st0, JsonTok::TNum { text }, tloc) == (FeedOut::FOk { st: st1, dup: false }));
    assert(json_run(s, 0, st0, false) == json_run(s, next, st1, false));
    assert(st1.stack.len() == 1 && st1.stack[0] is Done);
    assert(json_run(s, next, st1, false) matches Ok(out) && out.shape == TreeShape::Text(text));
    assert(Seq::empty().push(tloc) =~= seq![tloc]);
}

/// A produced token starts at or after the scan position and always consumes
/// at least one character; scanning never leaves the text.
pub proof fn lemma_next_token_bounds(s: Seq<char>, i: int)
    requires
        0 <= i <= s.len(),
    ensures
        next_token(s, i) matches TokStep::TTok { tok, start, next } ==> i <= start < next
            && next <= s.len(),
        next_token(s, i) matches TokStep::TEnd { at } ==> i <= at <= s.len(),
{
    crate::chars::lemma_skip_ws_bounds(s, i);
    let q = skip_ws(s, i);
    if 0 <= q < s.len() {
        let c = s[q];
        if c == '"' {
            lemma_scan_string_bounds(s, q + 1);
        } else if c == '[' || c == '{' || c == ']' || c == '}' || c == ':' || c == ',' {
        } else if c == 'n' || c == 't' || c == 'f' {
        } else {
            lemma_scan_num_bounds(s, q + 1);
        }
    }
}

} // verus!
