//! The JSON debug parser: a location-tracking tokenizer and an
//! explicit-stack parser, proved to return exactly what the reference
//! semantics in `json_spec` say.

use vstd::prelude::*;

use crate::chars::byte_at;
use crate::chars::chars_of;
use crate::chars::char_from_u32;
use crate::chars::loc_at;
use crate::chars::string_from_chars;
use crate::chars::Cursor;
use crate::document::Config;
use crate::document::Error;
use crate::document::Location;
use crate::document::ParseFault;
use crate::json_spec::decode_escapes;
use crate::json_spec::deliver;
use crate::json_spec::esc_char;
use crate::json_spec::escape_pass_from;
use crate::json_spec::feed;
use crate::json_spec::feed_scalar;
use crate::json_spec::hex_val;
use crate::chars::is_ws;
use crate::chars::is_ws_exec;
use crate::json_spec::is_num_char;
use crate::json_spec::json_run;
use crate::json_spec::lemma_next_token_bounds;
use crate::json_spec::lit_at;
use crate::json_spec::next_token;
use crate::json_spec::refuse;
use crate::json_spec::scan_num_end;
use crate::json_spec::scan_string;
use crate::chars::skip_ws;
use crate::json_spec::spec_json;
use crate::json_spec::u_escape_char;
use crate::json_spec::unicode_pass_from;
use crate::json_spec::value_position;
use crate::json_spec::ArrPhase;
use crate::json_spec::FeedOut;
use crate::json_spec::JsonErr;
use crate::json_spec::JsonErrKind;
use crate::json_spec::JsonOk;
use crate::json_spec::JsonState;
use crate::json_spec::JsonTok;
use crate::json_spec::ObjPhase;
use crate::json_spec::SpecFrame;
use crate::json_spec::TokStep;
use crate::tree::ConfigNodeID;
use crate::tree::DebugTree;
use crate::tree::keys_unique;
use crate::tree::wf_pairs_debug;
use crate::tree::wf_seq_debug;
use crate::tree::object_insert_debug;
use crate::tree::pre_ids_pairs;
use crate::tree::pre_ids_seq;
use crate::tree::shape_pairs_debug;
use crate::tree::shape_seq_debug;
use crate::tree::TreeShape;

verus! {

broadcast use vstd::std_specs::vec::group_vec_axioms, vstd::seq::group_seq_axioms;

// --- executable tokens ---

/// Executable token, carrying its text where the spec token carries a
/// character sequence.
enum Token {
    TStr { raw: Vec<char> },
    TNum { text: Vec<char> },
    TNull,
    TTrue,
    TFalse,
    LSquare,
    LCurly,
    RSquare,
    RCurly,
    Colon,
    Comma,
}

spec fn token_shape(t: Token) -> JsonTok {
    match t {
        Token::TStr { raw } => JsonTok::TStr { raw: raw@ },
        Token::TNum { text } => JsonTok::TNum { text: text@ },
        Token::TNull => JsonTok::TNull,
        Token::TTrue => JsonTok::TTrue,
        Token::TFalse => JsonTok::TFalse,
        Token::LSquare => JsonTok::LSquare,
        Token::LCurly => JsonTok::LCurly,
        Token::RSquare => JsonTok::RSquare,
        Token::RCurly => JsonTok::RCurly,
        Token::Colon => JsonTok::Colon,
        Token::Comma => JsonTok::Comma,
    }
}

fn is_num_char_exec(c: char) -> (r: bool)
    ensures
        r == is_num_char(c),
{
    let u: u32 = c as u32;
    c == '.' || (('0' as u32) <= u && u <= ('9' as u32)) || c == 'e' || c == 'E' || c == '+'
        || c == '-'
}

/// Step over the character under the cursor when it is `c`.
fn eat_char(chars: &Vec<char>, cur: &mut Cursor, c: char) -> (r: bool)
    requires
        old(cur).wf(),
        chars@ == old(cur).text@,
    ensures
        final(cur).wf(),
        final(cur).text@ == old(cur).text@,
        r == (old(cur).idx < chars@.len() && chars@[old(cur).idx as int] == c),
        r ==> final(cur).idx == old(cur).idx + 1,
        !r ==> *final(cur) == *old(cur),
{
    if cur.idx < chars.len() && chars[cur.idx] == c {
        cur.bump(chars);
        true
    } else {
        false
    }
}

/// The executable tokenizer: one token starting at the cursor, its location
/// and start index, with the cursor left after it; or no token, with the
/// cursor left where scanning stopped.
#[verifier::loop_isolation(false)]
fn next_token_exec(chars: &Vec<char>, cur: &mut Cursor) -> (r: Option<(Token, Location, usize)>)
    requires
        old(cur).wf(),
        chars@ == old(cur).text@,
    ensures
        final(cur).wf(),
        final(cur).text@ == old(cur).text@,
        match r {
            None => next_token(chars@, old(cur).idx as int) == (TokStep::TEnd {
                at: final(cur).idx as int,
            }),
            Some((tok, tloc, start)) => {
                &&& next_token(chars@, old(cur).idx as int) == (TokStep::TTok {
                    tok: token_shape(tok),
                    start: start as int,
                    next: final(cur).idx as int,
                })
                &&& tloc == loc_at(chars@, start as int)
                &&& start < chars@.len()
                &&& tloc.byte_number as int == byte_at(chars@, start as int)
            },
        },
{
    let ghost s = chars@;
    let ghost i0 = cur.idx as int;
    // skip whitespace between tokens
    while cur.idx < chars.len() && is_ws_exec(chars[cur.idx])
        invariant
            cur.wf(),
            cur.text@ == s,
            chars@ == s,
            skip_ws(s, i0) == skip_ws(s, cur.idx as int),
        decreases s.len() - cur.idx,
    {
        cur.bump(chars);
    }
    let q: usize = cur.idx;
    assert(skip_ws(s, i0) == q);
    proof {
        crate::chars::lemma_line_col_bound(s, q as int);
        crate::chars::lemma_byte_at_mono(s, 0, q as int);
    }
    if cur.idx == chars.len() {
        return None;
    }
    let tloc = cur.here();
    let c = chars[cur.idx];
    if c == '"' {
        let saved = *cur;
        cur.bump(chars);
        let mut raw: Vec<char> = Vec::new();
        loop
            invariant
                cur.wf(),
                cur.text@ == s,
                chars@ == s,
                q < cur.idx <= s.len(),
                saved.wf(),
                saved.text@ == s,
                saved.idx == q,
                tloc == loc_at(s, q as int),
                match scan_string(s, cur.idx as int) {
                    Some((rest, j)) => scan_string(s, q + 1) == (Some::<(Seq<char>, int)>(
                        (raw@ + rest, j),
                    )),
                    None => scan_string(s, q + 1) is None,
                },
            decreases s.len() - cur.idx,
        {
            if cur.idx == chars.len() {
                *cur = saved;
                return None;
            }
            let c2 = chars[cur.idx];
            if c2 == '"' {
                cur.bump(chars);
                proof {
                    assert(raw@ + Seq::<char>::empty() =~= raw@);
                }
                return Some((Token::TStr { raw }, tloc, q));
            } else if c2 == '\\' {
                if cur.idx + 1 == chars.len() {
                    *cur = saved;
                    return None;
                }
                let ghost before = cur.idx as int;
                raw.push(c2);
                cur.bump(chars);
                raw.push(chars[cur.idx]);
                cur.bump(chars);
                proof {
                    if let Some((rest, j)) = scan_string(s, cur.idx as int) {
                        assert(scan_string(s, before) == (Some::<(Seq<char>, int)>(
                            (seq![s[before], s[before + 1]] + rest, j),
                        )));
                        assert(raw@ + rest =~= (raw@.subrange(0, raw@.len() - 2)) + (seq![
                            s[before],
                            s[before + 1],
                        ] + rest));
                    }
                }
            } else {
                let ghost before = cur.idx as int;
                raw.push(c2);
                cur.bump(chars);
                proof {
                    if let Some((rest, j)) = scan_string(s, cur.idx as int) {
                        assert(scan_string(s, before) == (Some::<(Seq<char>, int)>(
                            (seq![s[before]] + rest, j),
                        )));
                        assert(raw@ + rest =~= (raw@.subrange(0, raw@.len() - 1)) + (seq![
                            s[before],
                        ] + rest));
                    }
                }
            }
        }
    } else if c == '[' {
        cur.bump(chars);
        Some((Token::LSquare, tloc, q))
    } else if c == '{' {
        cur.bump(chars);
        Some((Token::LCurly, tloc, q))
    } else if c == ']' {
        cur.bump(chars);
        Some((Token::RSquare, tloc, q))
    } else if c == '}' {
        cur.bump(chars);
        Some((Token::RCurly, tloc, q))
    } else if c == ':' {
        cur.bump(chars);
        Some((Token::Colon, tloc, q))
    } else if c == ',' {
        cur.bump(chars);
        Some((Token::Comma, tloc, q))
    } else if c == 'n' {
        let saved = *cur;
        if eat_char(chars, cur, 'n') && eat_char(chars, cur, 'u') && eat_char(chars, cur, 'l')
            && eat_char(chars, cur, 'l') {
            proof {
                assert(s.subrange(q as int, q + 4) =~= seq!['n', 'u', 'l', 'l']);
            }
            Some((Token::TNull, tloc, q))
        } else {
            proof {
                if lit_at(s, q as int, seq!['n', 'u', 'l', 'l']) {
                    assert(s.subrange(q as int, q + 4)[0] == s[q as int]);
                    assert(s.subrange(q as int, q + 4)[1] == s[q + 1]);
                    assert(s.subrange(q as int, q + 4)[2] == s[q + 2]);
                    assert(s.subrange(q as int, q + 4)[3] == s[q + 3]);
                }
            }
            *cur = saved;
            None
        }
    } else if c == 't' {
        let saved = *cur;
        if eat_char(chars, cur, 't') && eat_char(chars, cur, 'r') && eat_char(chars, cur, 'u')
            && eat_char(chars, cur, 'e') {
            proof {
                assert(s.subrange(q as int, q + 4) =~= seq!['t', 'r', 'u', 'e']);
            }
            Some((Token::TTrue, tloc, q))
        } else {
            proof {
                if lit_at(s, q as int, seq!['t', 'r', 'u', 'e']) {
                    assert(s.subrange(q as int, q + 4)[0] == s[q as int]);
                    assert(s.subrange(q as int, q + 4)[1] == s[q + 1]);
                    assert(s.subrange(q as int, q + 4)[2] == s[q + 2]);
                    assert(s.subrange(q as int, q + 4)[3] == s[q + 3]);
                }
            }
            *cur = saved;
            None
        }
    } else if c == 'f' {
        let saved = *cur;
        if eat_char(chars, cur, 'f') && eat_char(chars, cur, 'a') && eat_char(chars, cur, 'l')
            && eat_char(chars, cur, 's') && eat_char(chars, cur, 'e') {
            proof {
                assert(s.subrange(q as int, q + 5) =~= seq!['f', 'a', 'l', 's', 'e']);
            }
            Some((Token::TFalse, tloc, q))
        } else {
            proof {
                if lit_at(s, q as int, seq!['f', 'a', 'l', 's', 'e']) {
                    assert(s.subrange(q as int, q + 5)[0] == s[q as int]);
                    assert(s.subrange(q as int, q + 5)[1] == s[q + 1]);
                    assert(s.subrange(q as int, q + 5)[2] == s[q + 2]);
                    assert(s.subrange(q as int, q + 5)[3] == s[q + 3]);
                    assert(s.subrange(q as int, q + 5)[4] == s[q + 4]);
                }
            }
            *cur = saved;
            None
        }
    } else {
        // anything else starts a number: take this character, then the
        // number character class greedily, with no validation
        let mut text: Vec<char> = Vec::new();
        text.push(c);
        cur.bump(chars);
        while cur.idx < chars.len() && is_num_char_exec(chars[cur.idx])
            invariant
                cur.wf(),
                cur.text@ == s,
                chars@ == s,
                q < cur.idx <= s.len(),
                text@ == s.subrange(q as int, cur.idx as int),
                scan_num_end(s, q + 1) == scan_num_end(s, cur.idx as int),
            decreases s.len() - cur.idx,
        {
            let ghost before = cur.idx as int;
            text.push(chars[cur.idx]);
            cur.bump(chars);
            proof {
                assert(text@ =~= s.subrange(q as int, before + 1));
            }
        }
        proof {
            assert(text@ =~= s.subrange(q as int, cur.idx as int));
        }
        Some((Token::TNum { text }, tloc, q))
    }
}

// --- escape resolution ---

fn hex_val_exec(c: char) -> (r: Option<u32>)
    ensures
        match r {
            Some(h) => hex_val(c) == Some(h as int) && h <= 15,
            None => hex_val(c) is None,
        },
{
    let u: u32 = c as u32;
    if ('0' as u32) <= u && u <= ('9' as u32) {
        Some(u - ('0' as u32))
    } else if ('a' as u32) <= u && u <= ('f' as u32) {
        Some(u - ('a' as u32) + 10)
    } else if ('A' as u32) <= u && u <= ('F' as u32) {
        Some(u - ('A' as u32) + 10)
    } else {
        None
    }
}

fn esc_char_exec(c: char) -> (r: Option<char>)
    ensures
        r == esc_char(c),
{
    if c == '"' {
        Some('"')
    } else if c == '\\' {
        Some('\\')
    } else if c == '/' {
        Some('/')
    } else if c == 'b' {
        Some('\u{8}')
    } else if c == 'f' {
        Some('\u{c}')
    } else if c == 'n' {
        Some('\n')
    } else if c == 'r' {
        Some('\r')
    } else if c == 't' {
        Some('\t')
    } else {
        None
    }
}

/// The character a valid `\uXXXX` escape at `i` stands for, if any.
fn u_escape_exec(raw: &Vec<char>, i: usize) -> (r: Option<char>)
    requires
        i < raw@.len(),
    ensures
        r == u_escape_char(raw@, i as int),
        r is Some ==> i + 6 <= raw@.len(),
{
    if !(raw.len() >= 6 && i <= raw.len() - 6) {
        return None;
    }
    if !(raw[i] == '\\') {
        return None;
    }
    if !(raw[i + 1] == 'u') {
        return None;
    }
    let h0 = hex_val_exec(raw[i + 2]);
    let h1 = hex_val_exec(raw[i + 3]);
    let h2 = hex_val_exec(raw[i + 4]);
    let h3 = hex_val_exec(raw[i + 5]);
    match (h0, h1, h2, h3) {
        (Some(a), Some(b), Some(d), Some(e)) => {
            let v: u32 = a * 4096 + b * 256 + d * 16 + e;
            if v < 0xD800 || v > 0xDFFF {
                match char_from_u32(v) {
                    Some(c) => {
                        proof {
                            vstd::utf8::char_u32_cast(c, v);
                        }
                        Some(c)
                    },
                    None => {
                        proof {
                            assert(false);
                        }
                        None
                    },
                }
            } else {
                None
            }
        },
        _ => None,
    }
}

/// Resolve the string escapes: the unicode pass first, then the
/// single-character pass, exactly as `decode_escapes` says.
#[verifier::loop_isolation(false)]
fn decode_escapes_exec(raw: &Vec<char>) -> (r: Option<Vec<char>>)
    ensures
        match r {
            Some(v) => decode_escapes(raw@) == Some(v@),
            None => decode_escapes(raw@) is None,
        },
{
    let ghost s = raw@;
    let mut mid: Vec<char> = Vec::new();
    let mut i: usize = 0;
    while i < raw.len()
        invariant
            i <= s.len(),
            raw@ == s,
            unicode_pass_from(s, 0) == mid@ + unicode_pass_from(s, i as int),
        decreases s.len() - i,
    {
        match u_escape_exec(raw, i) {
            Some(c) => {
                proof {
                    assert(unicode_pass_from(s, i as int) == seq![c] + unicode_pass_from(
                        s,
                        i as int + 6,
                    ));
                    assert(mid@ + (seq![c] + unicode_pass_from(s, i as int + 6)) =~= (mid@.push(c))
                        + unicode_pass_from(s, i as int + 6));
                }
                mid.push(c);
                i = i + 6;
            },
            None => {
                let c = raw[i];
                proof {
                    assert(unicode_pass_from(s, i as int) == seq![c] + unicode_pass_from(
                        s,
                        i as int + 1,
                    ));
                    assert(mid@ + (seq![c] + unicode_pass_from(s, i as int + 1)) =~= (mid@.push(c))
                        + unicode_pass_from(s, i as int + 1));
                }
                mid.push(c);
                i = i + 1;
            },
        }
    }
    proof {
        assert(unicode_pass_from(s, 0) =~= mid@ + unicode_pass_from(s, s.len() as int));
        assert(mid@ + Seq::<char>::empty() =~= mid@);
    }
    let ghost m = mid@;
    assert(m == unicode_pass_from(s, 0));
    let mut out: Vec<char> = Vec::new();
    let mut j: usize = 0;
    while j < mid.len()
        invariant
            j <= m.len(),
            mid@ == m,
            m == unicode_pass_from(s, 0),
            match escape_pass_from(m, j as int) {
                Some(rest) => escape_pass_from(m, 0) == Some(out@ + rest),
                None => escape_pass_from(m, 0) is None,
            },
        decreases m.len() - j,
    {
        let c = mid[j];
        if c == '\\' {
            if j + 1 == mid.len() {
                proof {
                    assert(escape_pass_from(m, j as int) == Some(seq!['\\']));
                    assert(out@ + seq!['\\'] =~= out@.push('\\'));
                    assert(escape_pass_from(m, j as int + 1) == Some(Seq::<char>::empty()));
                    assert((out@.push('\\')) + Seq::<char>::empty() =~= out@.push('\\'));
                }
                out.push('\\');
                j = j + 1;
            } else {
                match esc_char_exec(mid[j + 1]) {
                    Some(e) => {
                        proof {
                            if let Some(rest) = escape_pass_from(m, j as int + 2) {
                                assert(escape_pass_from(m, j as int) == Some(seq![e] + rest));
                                assert(out@ + (seq![e] + rest) =~= (out@.push(e)) + rest);
                            }
                        }
                        out.push(e);
                        j = j + 2;
                    },
                    None => {
                        return None;
                    },
                }
            }
        } else {
            proof {
                if let Some(rest) = escape_pass_from(m, j as int + 1) {
                    assert(escape_pass_from(m, j as int) == Some(seq![c] + rest));
                    assert(out@ + (seq![c] + rest) =~= (out@.push(c)) + rest);
                }
            }
            out.push(c);
            j = j + 1;
        }
    }
    proof {
        assert(escape_pass_from(m, m.len() as int) == Some(Seq::<char>::empty()));
        assert(out@ + Seq::<char>::empty() =~= out@);
    }
    Some(out)
}

// --- the executable stack ---

/// Executable counterpart of `ObjPhase`, with keys as owned strings.
enum ObjPhaseX {
    KeyOrClose,
    Key,
    AfterKey { key: String },
    ObjValue { key: String },
    CommaOrClose,
}

spec fn obj_phase_shape(p: ObjPhaseX) -> ObjPhase {
    match p {
        ObjPhaseX::KeyOrClose => ObjPhase::KeyOrClose,
        ObjPhaseX::Key => ObjPhase::Key,
        ObjPhaseX::AfterKey { key } => ObjPhase::AfterKey { key: key@ },
        ObjPhaseX::ObjValue { key } => ObjPhase::ObjValue { key: key@ },
        ObjPhaseX::CommaOrClose => ObjPhase::CommaOrClose,
    }
}

/// One open construct of the executable parser.  Each carries the node
/// identifier allocated when it was opened.
enum Frame {
    Arr { id: usize, items: Vec<DebugTree>, phase: ArrPhase },
    Obj { id: usize, entries: Vec<(String, DebugTree)>, phase: ObjPhaseX },
    Done { v: DebugTree },
}

spec fn frame_shape(f: Frame) -> SpecFrame {
    match f {
        Frame::Arr { id, items, phase } => SpecFrame::Arr {
            items: shape_seq_debug(items@),
            phase,
        },
        Frame::Obj { id, entries, phase } => SpecFrame::Obj {
            entries: shape_pairs_debug(entries@),
            phase: obj_phase_shape(phase),
        },
        Frame::Done { v } => SpecFrame::Done { v: v.shape() },
    }
}

spec fn stack_shape(s: Seq<Frame>) -> Seq<SpecFrame> {
    s.map_values(|f: Frame| frame_shape(f))
}

spec fn frame_wf(f: Frame) -> bool {
    match f {
        Frame::Arr { id, items, phase } => wf_seq_debug(items@),
        Frame::Obj { id, entries, phase } => keys_unique(entries@) && wf_pairs_debug(entries@),
        Frame::Done { v } => v.wf(),
    }
}

spec fn stack_wf(s: Seq<Frame>) -> bool {
    forall|i: int| 0 <= i < s.len() ==> #[trigger] frame_wf(s[i])
}

/// The identifiers a frame holds, in pre-order: its own, then those of its
/// completed contents.
spec fn frame_open_ids(f: Frame) -> Seq<int> {
    match f {
        Frame::Arr { id, items, phase } => seq![id as int] + pre_ids_seq(items@),
        Frame::Obj { id, entries, phase } => seq![id as int] + pre_ids_pairs(entries@),
        Frame::Done { v } => v.pre_ids(),
    }
}

/// All identifiers on the stack, bottom to top.
spec fn stack_open_ids(s: Seq<Frame>) -> Seq<int>
    decreases s,
{
    if s.len() == 0 {
        Seq::empty()
    } else {
        stack_open_ids(s.drop_last()) + frame_open_ids(s.last())
    }
}

/// The sequence 0, 1, ..., n-1.
pub open spec fn range_ids(n: int) -> Seq<int> {
    Seq::new(if n >= 0 { n as nat } else { 0 }, |k: int| k)
}

broadcast proof fn lemma_stack_shape_push(s: Seq<Frame>, f: Frame)
    ensures
        #[trigger] stack_shape(s.push(f)) =~= stack_shape(s).push(frame_shape(f)),
{
}

broadcast proof fn lemma_stack_shape_drop(s: Seq<Frame>)
    requires
        s.len() > 0,
    ensures
        #[trigger] stack_shape(s.drop_last()) =~= stack_shape(s).drop_last(),
{
}

broadcast proof fn lemma_stack_open_ids_push(s: Seq<Frame>, f: Frame)
    ensures
        #[trigger] stack_open_ids(s.push(f)) == stack_open_ids(s) + frame_open_ids(f),
{
    assert(s.push(f).drop_last() =~= s);
}

broadcast proof fn lemma_pre_ids_seq_push(s: Seq<DebugTree>, x: DebugTree)
    ensures
        #[trigger] pre_ids_seq(s.push(x)) == pre_ids_seq(s) + x.pre_ids(),
{
    assert(s.push(x).drop_last() =~= s);
    assert(s.push(x).last() == x);
}

broadcast proof fn lemma_pre_ids_pairs_push(s: Seq<(String, DebugTree)>, k: String, x: DebugTree)
    ensures
        #[trigger] pre_ids_pairs(s.push((k, x))) == pre_ids_pairs(s) + x.pre_ids(),
{
    assert(s.push((k, x)).drop_last() =~= s);
    assert(s.push((k, x)).last() == (k, x));
}

proof fn lemma_range_push(n: int)
    requires
        n >= 0,
    ensures
        range_ids(n + 1) == range_ids(n).push(n),
{
    assert(range_ids(n + 1) =~= range_ids(n).push(n));
}

/// `deliver` refuses a value exactly when the stack is in no value position.
proof fn lemma_deliver_none(stack: Seq<SpecFrame>, v: TreeShape)
    ensures
        deliver(stack, v) is None <==> !value_position(stack),
{
}

/// Hand a completed value to the executable stack; refuse exactly when the
/// specification's `deliver` does.
fn deliver_exec(stack: &mut Vec<Frame>, v: DebugTree) -> (r: bool)
    requires
        stack_wf(old(stack)@),
        v.wf(),
    ensures
        match deliver(stack_shape(old(stack)@), v.shape()) {
            Some((st2, dup)) => {
                &&& r
                &&& stack_shape(final(stack)@) == st2
                &&& stack_wf(final(stack)@)
                &&& !dup ==> stack_open_ids(final(stack)@) == stack_open_ids(old(stack)@)
                    + v.pre_ids()
            },
            None => !r && final(stack)@ == old(stack)@,
        },
{
    broadcast use {lemma_stack_shape_push, lemma_stack_shape_drop, lemma_stack_open_ids_push, lemma_pre_ids_seq_push, lemma_pre_ids_pairs_push};

    let ghost orig = stack@;
    if stack.len() == 0 {
        stack.push(Frame::Done { v });
        assert(stack@ =~= orig.push(Frame::Done { v }));
        assert(stack_shape(orig) =~= Seq::<SpecFrame>::empty());
        assert(stack_open_ids(orig) + v.pre_ids() =~= v.pre_ids());
        assert(stack_shape(stack@) =~= seq![SpecFrame::Done { v: v.shape() }]);
        return true;
    }
    let top = stack.pop().unwrap();
    assert(orig.last() == top);
    assert(stack@ =~= orig.drop_last());
    match top {
        Frame::Arr { id, mut items, phase } => {
            match phase {
                ArrPhase::ValueOrClose | ArrPhase::ArrValue => {
                    let ghost old_items = items@;
                    proof {
                        assert(frame_shape(orig.last())->Arr_items == shape_seq_debug(old_items));
                    }
                    items.push(v);
                    let f = Frame::Arr { id, items, phase: ArrPhase::CommaOrClose };
                    stack.push(f);
                    proof {
                        crate::tree::lemma_shape_seq_debug_push(old_items, v);
                        crate::tree::lemma_wf_seq_debug_push(old_items, v);
                        assert(stack_open_ids(orig.drop_last()) + (seq![id as int] + (pre_ids_seq(
                            old_items,
                        ) + v.pre_ids())) =~= (stack_open_ids(orig.drop_last()) + (seq![id as int]
                            + pre_ids_seq(old_items))) + v.pre_ids());
                        assert(stack_wf(stack@)) by {
                            assert(forall|i: int|
                                0 <= i < stack@.len() - 1 ==> stack@[i] == orig[i]);
                            assert(frame_wf(orig[orig.len() - 1]));
                            assert(frame_wf(f));
                        }
                    }
                    true
                },
                ArrPhase::CommaOrClose => {
                    stack.push(Frame::Arr { id, items, phase });
                    assert(stack@ =~= orig);
                    false
                },
            }
        },
        Frame::Obj { id, mut entries, phase } => {
            match phase {
                ObjPhaseX::ObjValue { key } => {
                    let ghost old_entries = entries@;
                    proof {
                        assert(frame_wf(orig[orig.len() - 1]));
                    }
                    let existed = object_insert_debug(&mut entries, key, v);
                    let f = Frame::Obj { id, entries, phase: ObjPhaseX::CommaOrClose };
                    stack.push(f);
                    proof {
                        if !existed {
                            assert(stack_open_ids(orig.drop_last()) + (seq![id as int] + (
                            pre_ids_pairs(old_entries) + v.pre_ids())) =~= (stack_open_ids(
                                orig.drop_last(),
                            ) + (seq![id as int] + pre_ids_pairs(old_entries))) + v.pre_ids());
                        }
                        assert(stack_wf(stack@)) by {
                            assert(forall|i: int|
                                0 <= i < stack@.len() - 1 ==> stack@[i] == orig[i]);
                            assert(frame_wf(orig.last()));
                            assert(frame_wf(f));
                        }
                    }
                    true
                },
                ObjPhaseX::KeyOrClose => {
                    stack.push(Frame::Obj { id, entries, phase: ObjPhaseX::KeyOrClose });
                    assert(stack@ =~= orig);
                    false
                },
                ObjPhaseX::Key => {
                    stack.push(Frame::Obj { id, entries, phase: ObjPhaseX::Key });
                    assert(stack@ =~= orig);
                    false
                },
                ObjPhaseX::AfterKey { key } => {
                    stack.push(Frame::Obj { id, entries, phase: ObjPhaseX::AfterKey { key } });
                    assert(stack@ =~= orig);
                    false
                },
                ObjPhaseX::CommaOrClose => {
                    stack.push(Frame::Obj { id, entries, phase: ObjPhaseX::CommaOrClose });
                    assert(stack@ =~= orig);
                    false
                },
            }
        },
        Frame::Done { v: r0 } => {
            stack.push(Frame::Done { v: r0 });
            assert(stack@ =~= orig);
            false
        },
    }
}

/// Open identifiers match the allocated table slots exactly.
spec fn ids_inv(stack: Seq<Frame>, locs: Seq<Location>) -> bool {
    stack_open_ids(stack) == range_ids(locs.len() as int)
}

/// The error the specification's `refuse` picks for this stack.
fn refuse_kind(stack: &Vec<Frame>) -> (r: JsonErrKind)
    ensures
        refuse(stack_shape(stack@)) == (FeedOut::FErr { kind: r }),
{
    proof {
        if stack@.len() > 0 {
            assert(stack_shape(stack@).last() == frame_shape(stack@.last()));
        }
    }
    if stack.len() > 0 {
        match &stack[stack.len() - 1] {
            Frame::Done { v } => JsonErrKind::TooManyRoots,
            Frame::Arr { id, items, phase } => JsonErrKind::UnexpectedToken,
            Frame::Obj { id, entries, phase } => JsonErrKind::UnexpectedToken,
        }
    } else {
        JsonErrKind::UnexpectedToken
    }
}

/// Deliver a freshly allocated scalar node, recording its location.
fn apply_scalar(
    stack: &mut Vec<Frame>,
    locs: &mut Vec<Location>,
    v: DebugTree,
    tloc: Location,
) -> (r: Result<(), JsonErrKind>)
    requires
        stack_wf(old(stack)@),
        v.wf(),
        v.pre_ids() == seq![old(locs)@.len() as int],
    ensures
        match r {
            Ok(()) => {
                &&& feed_scalar(
                    JsonState { stack: stack_shape(old(stack)@), locs: old(locs)@ },
                    v.shape(),
                    tloc,
                ) matches FeedOut::FOk { st, dup }
                &&& st.stack == stack_shape(final(stack)@)
                &&& st.locs == final(locs)@
                &&& stack_wf(final(stack)@)
                &&& (!dup && ids_inv(old(stack)@, old(locs)@)) ==> ids_inv(
                    final(stack)@,
                    final(locs)@,
                )
            },
            Err(kind) => feed_scalar(
                JsonState { stack: stack_shape(old(stack)@), locs: old(locs)@ },
                v.shape(),
                tloc,
            ) == (FeedOut::FErr { kind }),
        },
{
    let ghost orig = stack@;
    let ghost orig_locs = locs@;
    let rk = refuse_kind(stack);
    if deliver_exec(stack, v) {
        proof {
            lemma_deliver_none(stack_shape(orig), v.shape());
            if ids_inv(orig, orig_locs) {
                lemma_range_push(orig_locs.len() as int);
                assert(range_ids(orig_locs.len() as int) + seq![orig_locs.len() as int]
                    =~= range_ids(orig_locs.len() as int).push(orig_locs.len() as int));
            }
        }
        locs.push(tloc);
        Ok(())
    } else {
        proof {
            lemma_deliver_none(stack_shape(orig), v.shape());
        }
        Err(rk)
    }
}

/// Whether the stack can accept a value.
fn value_position_exec(stack: &Vec<Frame>) -> (r: bool)
    ensures
        r == value_position(stack_shape(stack@)),
{
    proof {
        if stack@.len() > 0 {
            assert(stack_shape(stack@).last() == frame_shape(stack@.last()));
        }
    }
    if stack.len() == 0 {
        true
    } else {
        match &stack[stack.len() - 1] {
            Frame::Arr { id, items, phase } => match phase {
                ArrPhase::ValueOrClose => true,
                ArrPhase::ArrValue => true,
                ArrPhase::CommaOrClose => false,
            },
            Frame::Obj { id, entries, phase } => match phase {
                ObjPhaseX::ObjValue { key } => true,
                _ => false,
            },
            Frame::Done { v } => false,
        }
    }
}

/// Feed one token to the executable parser state, exactly as the
/// specification's `feed` says.
#[verifier::rlimit(60)]
fn apply_token(
    stack: &mut Vec<Frame>,
    locs: &mut Vec<Location>,
    tok: Token,
    tloc: Location,
) -> (r: Result<(), JsonErrKind>)
    requires
        stack_wf(old(stack)@),
    ensures
        match r {
            Ok(()) => {
                &&& feed(
                    JsonState { stack: stack_shape(old(stack)@), locs: old(locs)@ },
                    token_shape(tok),
                    tloc,
                ) matches FeedOut::FOk { st, dup }
                &&& st.stack == stack_shape(final(stack)@)
                &&& st.locs == final(locs)@
                &&& stack_wf(final(stack)@)
                &&& (!dup && ids_inv(old(stack)@, old(locs)@)) ==> ids_inv(
                    final(stack)@,
                    final(locs)@,
                )
            },
            Err(kind) => feed(
                JsonState { stack: stack_shape(old(stack)@), locs: old(locs)@ },
                token_shape(tok),
                tloc,
            ) == (FeedOut::FErr { kind }),
        },
{
    broadcast use {lemma_stack_shape_push, lemma_stack_shape_drop, lemma_stack_open_ids_push, lemma_pre_ids_seq_push, lemma_pre_ids_pairs_push};

    let ghost orig = stack@;
    let ghost orig_locs = locs@;
    let rk = refuse_kind(stack);
    match tok {
        Token::TNull => {
            let v = DebugTree::Null { id: ConfigNodeID(locs.len()) };
            apply_scalar(stack, locs, v, tloc)
        },
        Token::TTrue => {
            let v = DebugTree::Bool { id: ConfigNodeID(locs.len()), value: true };
            apply_scalar(stack, locs, v, tloc)
        },
        Token::TFalse => {
            let v = DebugTree::Bool { id: ConfigNodeID(locs.len()), value: false };
            apply_scalar(stack, locs, v, tloc)
        },
        Token::TNum { text } => {
            let v = DebugTree::String {
                id: ConfigNodeID(locs.len()),
                value: string_from_chars(&text),
            };
            apply_scalar(stack, locs, v, tloc)
        },
        Token::TStr { raw } => {
            let in_key_pos = if stack.len() > 0 {
                match &stack[stack.len() - 1] {
                    Frame::Obj { id, entries, phase } => match phase {
                        ObjPhaseX::KeyOrClose => true,
                        ObjPhaseX::Key => true,
                        _ => false,
                    },
                    _ => false,
                }
            } else {
                false
            };
            proof {
                if orig.len() > 0 {
                    assert(stack_shape(orig).last() == frame_shape(orig.last()));
                }
            }
            if in_key_pos {
                match decode_escapes_exec(&raw) {
                    Some(kv) => {
                        let key = string_from_chars(&kv);
                        let top = stack.pop().unwrap();
                        match top {
                            Frame::Obj { id, entries, phase } => {
                                let f = Frame::Obj {
                                    id,
                                    entries,
                                    phase: ObjPhaseX::AfterKey { key },
                                };
                                stack.push(f);
                                proof {
                                    assert(stack@ =~= orig.drop_last().push(f));
                                    assert(frame_open_ids(f) == frame_open_ids(orig.last()));
                                    assert(stack_open_ids(stack@) == stack_open_ids(orig));
                                    assert(stack_wf(stack@)) by {
                                        assert(forall|i: int|
                                            0 <= i < stack@.len() - 1 ==> stack@[i] == orig[i]);
                                        assert(frame_wf(orig.last()));
                                        assert(frame_wf(f));
                                    }
                                }
                                Ok(())
                            },
                            _ => {
                                proof {
                                    assert(false);
                                }
                                Err(JsonErrKind::UnexpectedToken)
                            },
                        }
                    },
                    None => Err(JsonErrKind::InvalidEscape),
                }
            } else {
                match decode_escapes_exec(&raw) {
                    Some(tv) => {
                        let v = DebugTree::String {
                            id: ConfigNodeID(locs.len()),
                            value: string_from_chars(&tv),
                        };
                        apply_scalar(stack, locs, v, tloc)
                    },
                    None => Err(JsonErrKind::InvalidEscape),
                }
            }
        },
        Token::LCurly => {
            if value_position_exec(stack) {
                let f = Frame::Obj {
                    id: locs.len(),
                    entries: Vec::new(),
                    phase: ObjPhaseX::KeyOrClose,
                };
                stack.push(f);
                locs.push(tloc);
                proof {
                    assert(frame_shape(f) == (SpecFrame::Obj {
                        entries: shape_pairs_debug(Seq::<(String, DebugTree)>::empty()),
                        phase: ObjPhase::KeyOrClose,
                    }));
                    assert(shape_pairs_debug(Seq::<(String, DebugTree)>::empty())
                        =~= Map::<Seq<char>, TreeShape>::empty());
                    assert(frame_open_ids(f) =~= seq![orig_locs.len() as int]);
                    assert(stack_wf(stack@)) by {
                        assert(forall|i: int| 0 <= i < orig.len() ==> stack@[i] == orig[i]);
                        assert(frame_wf(f));
                    }
                    if ids_inv(orig, orig_locs) {
                        lemma_range_push(orig_locs.len() as int);
                        assert(range_ids(orig_locs.len() as int) + seq![orig_locs.len() as int]
                            =~= range_ids(orig_locs.len() as int).push(orig_locs.len() as int));
                    }
                }
                Ok(())
            } else {
                Err(rk)
            }
        },
        Token::LSquare => {
            if value_position_exec(stack) {
                let f = Frame::Arr {
                    id: locs.len(),
                    items: Vec::new(),
                    phase: ArrPhase::ValueOrClose,
                };
                stack.push(f);
                locs.push(tloc);
                proof {
                    assert(frame_shape(f) == (SpecFrame::Arr {
                        items: shape_seq_debug(Seq::<DebugTree>::empty()),
                        phase: ArrPhase::ValueOrClose,
                    }));
                    assert(shape_seq_debug(Seq::<DebugTree>::empty()) =~= Seq::<TreeShape>::empty());
                    assert(frame_open_ids(f) =~= seq![orig_locs.len() as int]);
                    assert(stack_wf(stack@)) by {
                        assert(forall|i: int| 0 <= i < orig.len() ==> stack@[i] == orig[i]);
                        assert(frame_wf(f));
                    }
                    if ids_inv(orig, orig_locs) {
                        lemma_range_push(orig_locs.len() as int);
                        assert(range_ids(orig_locs.len() as int) + seq![orig_locs.len() as int]
                            =~= range_ids(orig_locs.len() as int).push(orig_locs.len() as int));
                    }
                }
                Ok(())
            } else {
                Err(rk)
            }
        },
        Token::RCurly => {
            proof {
                if orig.len() > 0 {
                    assert(stack_shape(orig).last() == frame_shape(orig.last()));
                }
            }
            if stack.len() == 0 {
                return Err(rk);
            }
            let can_close = match &stack[stack.len() - 1] {
                Frame::Obj { id, entries, phase } => match phase {
                    ObjPhaseX::KeyOrClose => true,
                    ObjPhaseX::CommaOrClose => true,
                    _ => false,
                },
                _ => false,
            };
            if !can_close {
                return Err(rk);
            }
            let top = stack.pop().unwrap();
            match top {
                Frame::Obj { id, entries, phase } => {
                    let node = DebugTree::Object { id: ConfigNodeID(id), value: entries };
                    proof {
                        assert(frame_wf(orig[orig.len() - 1]));
                        assert(frame_wf(orig.last()));
                        assert(node.wf());
                        assert(node.pre_ids() == frame_open_ids(orig.last()));
                        assert(node.shape() == (TreeShape::Obj(
                            frame_shape(orig.last())->Obj_entries,
                        )));
                    }
                    if deliver_exec(stack, node) {
                        Ok(())
                    } else {
                        Err(JsonErrKind::UnexpectedToken)
                    }
                },
                _ => {
                    proof {
                        assert(false);
                    }
                    Err(JsonErrKind::UnexpectedToken)
                },
            }
        },
        Token::RSquare => {
            proof {
                if orig.len() > 0 {
                    assert(stack_shape(orig).last() == frame_shape(orig.last()));
                }
            }
            if stack.len() == 0 {
                return Err(rk);
            }
            let can_close = match &stack[stack.len() - 1] {
                Frame::Arr { id, items, phase } => match phase {
                    ArrPhase::ValueOrClose => true,
                    ArrPhase::CommaOrClose => true,
                    _ => false,
                },
                _ => false,
            };
            if !can_close {
                return Err(rk);
            }
            let top = stack.pop().unwrap();
            match top {
                Frame::Arr { id, items, phase } => {
                    let node = DebugTree::Array { id: ConfigNodeID(id), value: items };
                    proof {
                        assert(frame_wf(orig[orig.len() - 1]));
                        assert(frame_wf(orig.last()));
                        assert(node.wf());
                        assert(node.pre_ids() == frame_open_ids(orig.last()));
                        assert(node.shape() == (TreeShape::Arr(
                            frame_shape(orig.last())->Arr_items,
                        )));
                    }
                    if deliver_exec(stack, node) {
                        Ok(())
                    } else {
                        Err(JsonErrKind::UnexpectedToken)
                    }
                },
                _ => {
                    proof {
                        assert(false);
                    }
                    Err(JsonErrKind::UnexpectedToken)
                },
            }
        },
        Token::Colon => {
            proof {
                if orig.len() > 0 {
                    assert(stack_shape(orig).last() == frame_shape(orig.last()));
                }
            }
            if stack.len() == 0 {
                return Err(rk);
            }
            let ok_here = match &stack[stack.len() - 1] {
                Frame::Obj { id, entries, phase } => match phase {
                    ObjPhaseX::AfterKey { key } => true,
                    _ => false,
                },
                _ => false,
            };
            if !ok_here {
                return Err(rk);
            }
            let top = stack.pop().unwrap();
            match top {
                Frame::Obj { id, entries, phase } => match phase {
                    ObjPhaseX::AfterKey { key } => {
                        let f = Frame::Obj { id, entries, phase: ObjPhaseX::ObjValue { key } };
                        stack.push(f);
                        proof {
                            assert(stack@ =~= orig.drop_last().push(f));
                            assert(frame_open_ids(f) == frame_open_ids(orig.last()));
                            assert(stack_open_ids(stack@) == stack_open_ids(orig));
                            assert(stack_wf(stack@)) by {
                                assert(forall|i: int|
                                    0 <= i < stack@.len() - 1 ==> stack@[i] == orig[i]);
                                assert(frame_wf(orig.last()));
                                assert(frame_wf(f));
                            }
                        }
                        Ok(())
                    },
                    _ => {
                        proof {
                            assert(false);
                        }
                        Err(JsonErrKind::UnexpectedToken)
                    },
                },
                _ => {
                    proof {
                        assert(false);
                    }
                    Err(JsonErrKind::UnexpectedToken)
                },
            }
        },
        Token::Comma => {
            proof {
                if orig.len() > 0 {
                    assert(stack_shape(orig).last() == frame_shape(orig.last()));
                }
            }
            if stack.len() == 0 {
                return Err(rk);
            }
            let which: u8 = match &stack[stack.len() - 1] {
                Frame::Arr { id, items, phase } => match phase {
                    ArrPhase::CommaOrClose => 1,
                    _ => 0,
                },
                Frame::Obj { id, entries, phase } => match phase {
                    ObjPhaseX::CommaOrClose => 2,
                    _ => 0,
                },
                Frame::Done { v } => 0,
            };
            if which == 0 {
                return Err(rk);
            }
            let top = stack.pop().unwrap();
            match top {
                Frame::Arr { id, items, phase } => {
                    let f = Frame::Arr { id, items, phase: ArrPhase::ArrValue };
                    stack.push(f);
                    proof {
                        assert(stack@ =~= orig.drop_last().push(f));
                        assert(frame_open_ids(f) == frame_open_ids(orig.last()));
                        assert(stack_open_ids(stack@) == stack_open_ids(orig));
                        assert(stack_wf(stack@)) by {
                            assert(forall|i: int|
                                0 <= i < stack@.len() - 1 ==> stack@[i] == orig[i]);
                            assert(frame_wf(orig.last()));
                            assert(frame_wf(f));
                        }
                    }
                    Ok(())
                },
                Frame::Obj { id, entries, phase } => {
                    let f = Frame::Obj { id, entries, phase: ObjPhaseX::Key };
                    stack.push(f);
                    proof {
                        assert(stack@ =~= orig.drop_last().push(f));
                        assert(frame_open_ids(f) == frame_open_ids(orig.last()));
                        assert(stack_open_ids(stack@) == stack_open_ids(orig));
                        assert(stack_wf(stack@)) by {
                            assert(forall|i: int|
                                0 <= i < stack@.len() - 1 ==> stack@[i] == orig[i]);
                            assert(frame_wf(orig.last()));
                            assert(frame_wf(f));
                        }
                    }
                    Ok(())
                },
                Frame::Done { v } => {
                    proof {
                        assert(false);
                    }
                    Err(JsonErrKind::UnexpectedToken)
                },
            }
        },
    }
}

/// The message each parse failure carries.
pub open spec fn json_err_msg(k: JsonErrKind) -> Seq<char> {
    match k {
        JsonErrKind::UnexpectedToken => "unexpected token"@,
        JsonErrKind::InvalidEscape => "invalid escape sequence"@,
        JsonErrKind::TooManyRoots => "too many constructs in root"@,
        JsonErrKind::Unclosed => "unclosed constructs"@,
    }
}

fn make_json_error(chars: &Vec<char>, at: usize, off: usize, kind: JsonErrKind, file_name: &str) -> (r:
    Error)
    requires
        at <= chars@.len(),
    ensures
        r matches Error::JSONError { err, file_name: f } && f@ == file_name@ && err.message@
            == json_err_msg(kind) && err.offset == off && err.sample@ == crate::chars::sample_at(
            chars@,
            at as int,
        ),
{
    let msg: String = match kind {
        JsonErrKind::UnexpectedToken => "unexpected token".to_owned(),
        JsonErrKind::InvalidEscape => "invalid escape sequence".to_owned(),
        JsonErrKind::TooManyRoots => "too many constructs in root".to_owned(),
        JsonErrKind::Unclosed => "unclosed constructs".to_owned(),
    };
    let sample = crate::chars::sample_from(chars, at);
    Error::JSONError {
        err: ParseFault { message: msg, offset: off, sample },
        file_name: file_name.to_owned(),
    }
}

impl Config {
    /// Parse a JSON document in debug mode: every node of the resulting tree
    /// carries an identifier, assigned in strict pre-order of first
    /// encounter, and the location table records, at each identifier's
    /// index, the source position where that node's first token begins.
    ///
    /// The result is exactly what the reference semantics `spec_json` says:
    /// the tree's shape on success (so numbers stay verbatim text, and a
    /// colliding object key keeps the value written last), or the matching
    /// failure, with its message, byte offset and context sample.
    pub fn from_json_debug(file_name: &str, content: &str) -> (r: Result<Config, Error>)
        ensures
            match r {
                Ok(cfg) => {
                    &&& spec_json(content@) matches Ok(out)
                    &&& cfg matches Config::Debug { tree, file_name: fname, locations }
                    &&& fname@ == file_name@
                    &&& tree.shape() == out.shape
                    &&& tree.wf()
                    &&& locations@ == out.locs
                    &&& !out.dup ==> tree.pre_ids() == range_ids(out.locs.len() as int)
                },
                Err(e) => {
                    &&& spec_json(content@) matches Err(fault)
                    &&& e matches Error::JSONError { err, file_name: fname }
                    &&& fname@ == file_name@
                    &&& err.message@ == json_err_msg(fault.kind)
                    &&& err.offset as int == byte_at(content@, fault.at)
                    &&& err.sample@ == crate::chars::sample_at(content@, fault.at)
                },
            },
    {
        broadcast use {lemma_stack_shape_push, lemma_stack_open_ids_push};

        let chars = chars_of(content);
        let ghost s = chars@;
        let mut cur = Cursor::new(Ghost(s));
        let mut stack: Vec<Frame> = Vec::new();
        let mut locs: Vec<Location> = Vec::new();
        let ghost mut dup: bool = false;
        let ghost init = JsonState { stack: stack_shape(stack@), locs: locs@ };
        proof {
            assert(stack_shape(stack@) =~= Seq::<SpecFrame>::empty());
            assert(spec_json(s) == json_run(s, 0, init, false));
            assert(range_ids(0) =~= Seq::<int>::empty());
        }
        loop
            invariant
                cur.wf(),
                cur.text@ == s,
                chars@ == s,
                content@ == s,
                stack_wf(stack@),
                !dup ==> ids_inv(stack@, locs@),
                spec_json(s) == json_run(
                    s,
                    cur.idx as int,
                    JsonState { stack: stack_shape(stack@), locs: locs@ },
                    dup,
                ),
            ensures
                cur.wf(),
                cur.text@ == s,
                chars@ == s,
                content@ == s,
                stack_wf(stack@),
                !dup ==> ids_inv(stack@, locs@),
                spec_json(s) == (if stack_shape(stack@).len() == 1 && stack_shape(stack@)[0]
                    is Done {
                    Ok::<JsonOk, JsonErr>(
                        JsonOk { shape: stack_shape(stack@)[0]->Done_v, locs: locs@, dup },
                    )
                } else {
                    Err::<JsonOk, JsonErr>(
                        JsonErr { kind: JsonErrKind::Unclosed, at: cur.idx as int },
                    )
                }),
            decreases s.len() - cur.idx,
        {
            let ghost idx0 = cur.idx as int;
            let ghost st0 = JsonState { stack: stack_shape(stack@), locs: locs@ };
            proof {
                lemma_next_token_bounds(s, idx0);
            }
            match next_token_exec(&chars, &mut cur) {
                None => {
                    proof {
                        assert(json_run(s, idx0, st0, dup) == (if st0.stack.len() == 1
                            && st0.stack[0] is Done {
                            Ok::<JsonOk, JsonErr>(
                                JsonOk { shape: st0.stack[0]->Done_v, locs: st0.locs, dup },
                            )
                        } else {
                            Err::<JsonOk, JsonErr>(
                                JsonErr { kind: JsonErrKind::Unclosed, at: cur.idx as int },
                            )
                        }));
                    }
                    break;
                },
                Some((tok, tloc, start)) => {
                    let ghost tsh = token_shape(tok);
                    match apply_token(&mut stack, &mut locs, tok, tloc) {
                        Ok(()) => {
                            proof {
                                let fo = feed(st0, tsh, tloc);
                                dup = dup || fo->FOk_dup;
                            }
                        },
                        Err(kind) => {
                            proof {
                                assert(json_run(s, idx0, st0, dup) == (Err::<JsonOk, JsonErr>(
                                    JsonErr { kind, at: start as int },
                                )));
                            }
                            let off = tloc.byte_number;
                            return Err(make_json_error(&chars, start, off, kind, file_name));
                        },
                    }
                },
            }
        }
        // end of tokens: the stack must hold exactly the completed root
        if stack.len() == 1 {
            let ghost pre_stack = stack@;
            let top = stack.pop().unwrap();
            proof {
                assert(pre_stack =~= seq![top]);
                assert(stack_shape(pre_stack)[0] == frame_shape(top));
            }
            match top {
                Frame::Done { v } => {
                    proof {
                        assert(stack_open_ids(pre_stack) =~= frame_open_ids(pre_stack.last())) by {
                            assert(pre_stack.drop_last() =~= Seq::<Frame>::empty());
                        }
                        assert(frame_wf(pre_stack[0]));
                    }
                    let fname = file_name.to_owned();
                    return Ok(Config::Debug { tree: v, file_name: fname, locations: locs });
                },
                other => {
                    let off = cur.byte;
                    return Err(
                        make_json_error(&chars, cur.idx, off, JsonErrKind::Unclosed, file_name),
                    );
                },
            }
        } else {
            let off = cur.byte;
            return Err(make_json_error(&chars, cur.idx, off, JsonErrKind::Unclosed, file_name));
        }
    }
}

} // verus!
