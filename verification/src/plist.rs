//! The plist parser: a scanner for the restricted XML dialect and an
//! explicit-stack tree builder, proved to return exactly what the reference
//! semantics in `plist_spec` say.

use vstd::prelude::*;

use crate::chars::byte_at;
use crate::chars::chars_of;
use crate::chars::char_from_u32;
use crate::chars::is_ws_exec;
use crate::chars::sample_at;
use crate::chars::sample_from;
use crate::chars::skip_ws;
use crate::chars::string_from_chars;
use crate::chars::Cursor;
use crate::document::Config;
use crate::document::Error;
use crate::document::ParseFault;
use crate::plist_spec::dec_pass_from;
use crate::plist_spec::dec_ref_at;
use crate::plist_spec::dec_run_end;
use crate::plist_spec::dec_val;
use crate::plist_spec::decode_entities;
use crate::plist_spec::digit_val;
use crate::plist_spec::find_at;
use crate::plist_spec::hex_digit_val;
use crate::plist_spec::hex_pass_from;
use crate::plist_spec::hex_ref_at;
use crate::plist_spec::hex_run_end;
use crate::plist_spec::hex_val_run;
use crate::plist_spec::is_digit;
use crate::plist_spec::is_hex_digit;
use crate::plist_spec::lemma_find_at_bounds;
use crate::plist_spec::lemma_next_event_bounds;
use crate::plist_spec::lit_here;
use crate::plist_spec::named_at;
use crate::plist_spec::named_pass_from;
use crate::plist_spec::next_event;
use crate::plist_spec::p_deliver;
use crate::plist_spec::p_feed;
use crate::plist_spec::p_refuse;
use crate::plist_spec::p_value_pos;
use crate::plist_spec::plist_lit_lens;
use crate::plist_spec::plist_run;
use crate::plist_spec::spec_plist;
use crate::plist_spec::tag_value;
use crate::plist_spec::EvStep;
use crate::plist_spec::PFrame;
use crate::plist_spec::PlistErr;
use crate::plist_spec::PlistErrKind;
use crate::plist_spec::PlistEv;
use vstd::string::StringExecFns;
use crate::tree::keys_unique;
use crate::tree::object_insert;
use crate::tree::shape_pairs;
use crate::tree::shape_seq;
use crate::tree::wf_pairs;
use crate::tree::wf_seq;
use crate::tree::ConfigTree;
use crate::tree::TreeShape;

verus! {

broadcast use vstd::std_specs::vec::group_vec_axioms, vstd::seq::group_seq_axioms;

fn is_digit_exec(c: char) -> (r: bool)
    ensures
        r == is_digit(c),
{
    let u: u32 = c as u32;
    ('0' as u32) <= u && u <= ('9' as u32)
}

fn is_hex_digit_exec(c: char) -> (r: bool)
    ensures
        r == is_hex_digit(c),
{
    let u: u32 = c as u32;
    is_digit_exec(c) || (('a' as u32) <= u && u <= ('f' as u32))
}

/// The word `pat` stands verbatim at position `i` of `chars`.
fn starts_at(chars: &Vec<char>, i: usize, pat: &Vec<char>) -> (r: bool)
    requires
        i <= chars@.len(),
    ensures
        r == lit_here(chars@, i as int, pat@),
{
    if chars.len() - i < pat.len() {
        proof {
            assert(!lit_here(chars@, i as int, pat@));
        }
        return false;
    }
    let mut k: usize = 0;
    while k < pat.len()
        invariant
            0 <= k <= pat@.len(),
            i + pat@.len() <= chars@.len(),
            chars@.len() <= usize::MAX,
            forall|m: int| 0 <= m < k ==> chars@[i + m] == pat@[m],
        decreases pat@.len() - k,
    {
        if chars[i + k] != pat[k] {
            proof {
                assert(chars@.subrange(i as int, i + pat@.len())[k as int] == chars@[i + k]);
            }
            return false;
        }
        k += 1;
    }
    proof {
        assert(chars@.subrange(i as int, i + pat@.len()) =~= pat@);
    }
    true
}

/// Move the cursor to the first occurrence of `pat` at or after it, or to
/// the end of the text when there is none.
fn seek(chars: &Vec<char>, cur: &mut Cursor, pat: &Vec<char>) -> (r: bool)
    requires
        old(cur).wf(),
        chars@ == old(cur).text@,
        pat@.len() > 0,
    ensures
        final(cur).wf(),
        final(cur).text@ == old(cur).text@,
        match find_at(chars@, old(cur).idx as int, pat@) {
            Some(j) => r && final(cur).idx as int == j,
            None => !r && final(cur).idx == chars@.len(),
        },
{
    let ghost s = chars@;
    let ghost i0 = cur.idx as int;
    loop
        invariant
            cur.wf(),
            cur.text@ == s,
            chars@ == s,
            pat@.len() > 0,
            i0 <= cur.idx as int <= s.len(),
            find_at(s, i0, pat@) == find_at(s, cur.idx as int, pat@),
        ensures
            cur.wf(),
            cur.text@ == s,
            match find_at(s, i0, pat@) {
                Some(j) => cur.idx as int == j && lit_here(s, cur.idx as int, pat@),
                None => cur.idx == s.len(),
            },
        decreases s.len() - cur.idx,
    {
        if starts_at(chars, cur.idx, pat) {
            break;
        }
        if cur.idx == chars.len() {
            break;
        }
        cur.bump(chars);
    }
    starts_at(chars, cur.idx, pat)
}

/// Copy the characters of positions `lo` up to `hi`.
fn copy_range(chars: &Vec<char>, lo: usize, hi: usize) -> (r: Vec<char>)
    requires
        lo <= hi <= chars@.len(),
    ensures
        r@ == chars@.subrange(lo as int, hi as int),
{
    let mut out: Vec<char> = Vec::new();
    let mut k: usize = lo;
    while k < hi
        invariant
            lo <= k <= hi <= chars@.len(),
            out@ == chars@.subrange(lo as int, k as int),
        decreases hi - k,
    {
        let ghost before = k as int;
        out.push(chars[k]);
        k += 1;
        proof {
            assert(out@ =~= chars@.subrange(lo as int, before + 1));
        }
    }
    out
}

/// Resolve the character references of a captured text, exactly as
/// `decode_entities` says: decimal, then hexadecimal, then named.
fn decode_entities_exec(v: &Vec<char>) -> (r: Result<Vec<char>, PlistErrKind>)
    ensures
        match r {
            Ok(out) => decode_entities(v@) == Ok::<Seq<char>, PlistErrKind>(out@),
            Err(k) => decode_entities(v@) == Err::<Seq<char>, PlistErrKind>(k),
        },
{
    let a = match dec_pass_exec(v) {
        Ok(a) => a,
        Err(k) => {
            return Err(k);
        },
    };
    let b = match hex_pass_exec(&a) {
        Ok(b) => b,
        Err(k) => {
            return Err(k);
        },
    };
    Ok(named_pass_exec(&b))
}

fn dec_pass_exec(v: &Vec<char>) -> (r: Result<Vec<char>, PlistErrKind>)
    ensures
        match r {
            Ok(out) => dec_pass_from(v@, 0) == Ok::<Seq<char>, PlistErrKind>(out@),
            Err(k) => dec_pass_from(v@, 0) == Err::<Seq<char>, PlistErrKind>(k),
        },
{
    let ghost s = v@;
    let mut out: Vec<char> = Vec::new();
    let mut i: usize = 0;
    while i < v.len()
        invariant
            0 <= i <= s.len(),
            v@ == s,
            match dec_pass_from(s, i as int) {
                Ok(rest) => dec_pass_from(s, 0) == Ok::<Seq<char>, PlistErrKind>(out@ + rest),
                Err(k) => dec_pass_from(s, 0) == Err::<Seq<char>, PlistErrKind>(k),
            },
        decreases s.len() - i,
    {
        let mut is_ref = false;
        let mut e: usize = i;
        if v[i] == '&' && i + 1 < v.len() && v[i + 1] == '#' {
            // scan the digit run, tracking its value and overflow
            e = i + 2;
            let mut val: u64 = 0;
            let mut over = false;
            while e < v.len() && is_digit_exec(v[e])
                invariant
                    i + 2 <= e <= s.len(),
                    v@ == s,
                    dec_run_end(s, i + 2) == dec_run_end(s, e as int),
                    !over ==> val as int == dec_val(s, i + 2, e as int) && val <= u32::MAX as u64,
                    over ==> dec_val(s, i + 2, e as int) > u32::MAX,
                decreases s.len() - e,
            {
                let d: u32 = (v[e] as u32) - ('0' as u32);
                proof {
                    assert(d as int == digit_val(s[e as int]));
                }
                if !over {
                    val = val * 10 + (d as u64);
                    if val > (u32::MAX as u64) {
                        over = true;
                    }
                }
                e += 1;
            }
            if e > i + 2 && e < v.len() && v[e] == ';' {
                is_ref = true;
                assert(dec_ref_at(s, i as int));
                if over {
                    return Err(PlistErrKind::BadDecimal);
                }
                let code: u32 = val as u32;
                match char_from_u32(code) {
                    Some(c) => {
                        proof {
                            vstd::utf8::char_u32_cast(c, code);
                            if let Ok(rest) = dec_pass_from(s, e + 1) {
                                assert(dec_pass_from(s, i as int) == Ok::<
                                    Seq<char>,
                                    PlistErrKind,
                                >(seq![c] + rest));
                                assert(out@ + (seq![c] + rest) =~= (out@.push(c)) + rest);
                            }
                        }
                        out.push(c);
                        i = e + 1;
                    },
                    None => {
                        return Err(PlistErrKind::BadDecimalChar);
                    },
                }
            }
        }
        if !is_ref {
            proof {
                assert(!dec_ref_at(s, i as int));
                let c = s[i as int];
                if let Ok(rest) = dec_pass_from(s, i as int + 1) {
                    assert(dec_pass_from(s, i as int) == Ok::<Seq<char>, PlistErrKind>(
                        seq![c] + rest,
                    ));
                    assert(out@ + (seq![c] + rest) =~= (out@.push(c)) + rest);
                }
            }
            out.push(v[i]);
            i += 1;
        }
    }
    proof {
        assert(out@ + Seq::<char>::empty() =~= out@);
    }
    Ok(out)
}

fn hex_pass_exec(v: &Vec<char>) -> (r: Result<Vec<char>, PlistErrKind>)
    ensures
        match r {
            Ok(out) => hex_pass_from(v@, 0) == Ok::<Seq<char>, PlistErrKind>(out@),
            Err(k) => hex_pass_from(v@, 0) == Err::<Seq<char>, PlistErrKind>(k),
        },
{
    let ghost s = v@;
    let mut out: Vec<char> = Vec::new();
    let mut i: usize = 0;
    while i < v.len()
        invariant
            0 <= i <= s.len(),
            v@ == s,
            match hex_pass_from(s, i as int) {
                Ok(rest) => hex_pass_from(s, 0) == Ok::<Seq<char>, PlistErrKind>(out@ + rest),
                Err(k) => hex_pass_from(s, 0) == Err::<Seq<char>, PlistErrKind>(k),
            },
        decreases s.len() - i,
    {
        let mut is_ref = false;
        let mut e: usize = i;
        if v[i] == '&' && i + 1 < v.len() && v[i + 1] == '#' && i + 2 < v.len() && v[i + 2] == 'x' {
            e = i + 3;
            let mut val: u64 = 0;
            let mut over = false;
            while e < v.len() && is_hex_digit_exec(v[e])
                invariant
                    i + 3 <= e <= s.len(),
                    v@ == s,
                    hex_run_end(s, i + 3) == hex_run_end(s, e as int),
                    !over ==> val as int == hex_val_run(s, i + 3, e as int) && val <= u32::MAX
                        as u64,
                    over ==> hex_val_run(s, i + 3, e as int) > u32::MAX,
                decreases s.len() - e,
            {
                let u: u32 = v[e] as u32;
                let d: u32 = if ('0' as u32) <= u && u <= ('9' as u32) {
                    u - ('0' as u32)
                } else {
                    u - ('a' as u32) + 10
                };
                proof {
                    assert(d as int == hex_digit_val(s[e as int]));
                }
                if !over {
                    val = val * 16 + (d as u64);
                    if val > (u32::MAX as u64) {
                        over = true;
                    }
                }
                e += 1;
            }
            if e > i + 3 && e < v.len() && v[e] == ';' {
                is_ref = true;
                assert(hex_ref_at(s, i as int));
                if over {
                    return Err(PlistErrKind::BadHex);
                }
                let code: u32 = val as u32;
                match char_from_u32(code) {
                    Some(c) => {
                        proof {
                            vstd::utf8::char_u32_cast(c, code);
                            if let Ok(rest) = hex_pass_from(s, e + 1) {
                                assert(hex_pass_from(s, i as int) == Ok::<
                                    Seq<char>,
                                    PlistErrKind,
                                >(seq![c] + rest));
                                assert(out@ + (seq![c] + rest) =~= (out@.push(c)) + rest);
                            }
                        }
                        out.push(c);
                        i = e + 1;
                    },
                    None => {
                        return Err(PlistErrKind::BadHexChar);
                    },
                }
            }
        }
        if !is_ref {
            proof {
                assert(!hex_ref_at(s, i as int));
                let c = s[i as int];
                if let Ok(rest) = hex_pass_from(s, i as int + 1) {
                    assert(hex_pass_from(s, i as int) == Ok::<Seq<char>, PlistErrKind>(
                        seq![c] + rest,
                    ));
                    assert(out@ + (seq![c] + rest) =~= (out@.push(c)) + rest);
                }
            }
            out.push(v[i]);
            i += 1;
        }
    }
    proof {
        assert(out@ + Seq::<char>::empty() =~= out@);
    }
    Ok(out)
}

fn named_pass_exec(v: &Vec<char>) -> (r: Vec<char>)
    ensures
        r@ == named_pass_from(v@, 0),
{
    let ghost s = v@;
    let amp = chars_of("&amp;");
    let lt = chars_of("&lt;");
    let gt = chars_of("&gt;");
    let quot = chars_of("&quot;");
    let apos = chars_of("&apos;");
    proof {
        plist_lit_lens();
    }
    let mut out: Vec<char> = Vec::new();
    let mut i: usize = 0;
    while i < v.len()
        invariant
            0 <= i <= s.len(),
            v@ == s,
            amp@ == "&amp;"@,
            lt@ == "&lt;"@,
            gt@ == "&gt;"@,
            quot@ == "&quot;"@,
            apos@ == "&apos;"@,
            named_pass_from(s, 0) == out@ + named_pass_from(s, i as int),
        decreases s.len() - i,
    {
        proof {
            plist_lit_lens();
        }
        let hit: Option<(char, usize)> = if starts_at(v, i, &amp) {
            Some(('&', 5))
        } else if starts_at(v, i, &lt) {
            Some(('<', 4))
        } else if starts_at(v, i, &gt) {
            Some(('>', 4))
        } else if starts_at(v, i, &quot) {
            Some(('"', 6))
        } else if starts_at(v, i, &apos) {
            Some(('\\', 6))
        } else {
            None
        };
        match hit {
            Some((c, n)) => {
                proof {
                    assert(named_at(s, i as int) == Some::<(char, int)>((c, n as int)));
                    assert(named_pass_from(s, i as int) == seq![c] + named_pass_from(
                        s,
                        i as int + n,
                    ));
                    assert(out@ + (seq![c] + named_pass_from(s, i as int + n)) =~= (out@.push(c))
                        + named_pass_from(s, i as int + n));
                }
                out.push(c);
                i += n;
            },
            None => {
                let c = v[i];
                proof {
                    assert(named_at(s, i as int) is None);
                    assert(named_pass_from(s, i as int) == seq![c] + named_pass_from(
                        s,
                        i as int + 1,
                    ));
                    assert(out@ + (seq![c] + named_pass_from(s, i as int + 1)) =~= (out@.push(c))
                        + named_pass_from(s, i as int + 1));
                }
                out.push(c);
                i += 1;
            },
        }
    }
    proof {
        assert(out@ + Seq::<char>::empty() =~= out@);
    }
    out
}

// --- the executable scanner ---

/// Executable structural event.
enum Event {
    EStr(String),
    EBool(bool),
    EEnterDict,
    EKey(String),
    ECloseDict,
    EEnterArray,
    ECloseArray,
    EEof,
}

spec fn event_shape(e: Event) -> PlistEv {
    match e {
        Event::EStr(t) => PlistEv::EvStr(t@),
        Event::EBool(b) => PlistEv::EvBool(b),
        Event::EEnterDict => PlistEv::EvEnterDict,
        Event::EKey(t) => PlistEv::EvKey(t@),
        Event::ECloseDict => PlistEv::EvCloseDict,
        Event::EEnterArray => PlistEv::EvEnterArray,
        Event::ECloseArray => PlistEv::EvCloseArray,
        Event::EEof => PlistEv::EvEof,
    }
}

/// The text content of a value tag, with the cursor moved past the closing
/// tag; on failure the cursor stands at the failure's position.
fn tag_value_exec(chars: &Vec<char>, cur: &mut Cursor, is_closed: bool) -> (r: Result<
    String,
    PlistErrKind,
>)
    requires
        old(cur).wf(),
        chars@ == old(cur).text@,
    ensures
        final(cur).wf(),
        final(cur).text@ == old(cur).text@,
        match r {
            Ok(txt) => tag_value(chars@, old(cur).idx as int, is_closed) matches Ok((t, n))
                && txt@ == t && final(cur).idx as int == n,
            Err(k) => tag_value(chars@, old(cur).idx as int, is_closed) matches Err((k2, at)) && k2
                == k && final(cur).idx as int == at,
        },
{
    let ghost s = chars@;
    if is_closed {
        return Ok(String::new());
    }
    let saved = *cur;
    let after = cur.idx;
    let pat_close = chars_of("</");
    let pat_gt = chars_of(">");
    proof {
        plist_lit_lens();
        lemma_find_at_bounds(s, after as int, "</"@);
    }
    if !seek(chars, cur, &pat_close) {
        *cur = saved;
        return Err(PlistErrKind::Unterminated);
    }
    let j = cur.idx;
    proof {
        lemma_find_at_bounds(s, j + 2, ">"@);
    }
    cur.bump(chars);
    cur.bump(chars);
    if !seek(chars, cur, &pat_gt) {
        *cur = saved;
        return Err(PlistErrKind::Unterminated);
    }
    cur.bump(chars);
    let content = copy_range(chars, after, j);
    match decode_entities_exec(&content) {
        Ok(t) => Ok(string_from_chars(&t)),
        Err(k) => {
            *cur = saved;
            Err(k)
        },
    }
}

/// The executable scanner: the next structural event, with the cursor moved
/// past it; on failure the cursor stands at the failure's position.
#[verifier::loop_isolation(false)]
#[verifier::rlimit(60)]
fn next_event_exec(chars: &Vec<char>, cur: &mut Cursor) -> (r: Result<
    Event,
    (PlistErrKind, String),
>)
    requires
        old(cur).wf(),
        chars@ == old(cur).text@,
    ensures
        final(cur).wf(),
        final(cur).text@ == old(cur).text@,
        match r {
            Ok(ev) => next_event(chars@, old(cur).idx as int) == (EvStep::ESome {
                ev: event_shape(ev),
                next: final(cur).idx as int,
            }),
            Err(f) => next_event(chars@, old(cur).idx as int) == (EvStep::EErr {
                kind: f.0,
                at: final(cur).idx as int,
                tag: f.1@,
            }),
        },
{
    let ghost s = chars@;
    let ghost i0 = cur.idx as int;
    let pat_pi = chars_of("?>");
    let pat_comment = chars_of("-->");
    let pat_gt = chars_of(">");
    let pat_ddash = chars_of("--");
    let pat_plist = chars_of("plist");
    let pat_dict = chars_of("dict");
    let pat_array = chars_of("array");
    let pat_key = chars_of("key");
    let pat_string = chars_of("string");
    let pat_real = chars_of("real");
    let pat_integer = chars_of("integer");
    let pat_date = chars_of("date");
    let pat_data = chars_of("data");
    let pat_true = chars_of("true");
    let pat_false = chars_of("false");
    proof {
        plist_lit_lens();
    }
    loop
        invariant
            cur.wf(),
            cur.text@ == s,
            chars@ == s,
            pat_pi@ == "?>"@,
            pat_comment@ == "-->"@,
            pat_gt@ == ">"@,
            pat_ddash@ == "--"@,
            pat_plist@ == "plist"@,
            pat_dict@ == "dict"@,
            pat_array@ == "array"@,
            pat_key@ == "key"@,
            pat_string@ == "string"@,
            pat_real@ == "real"@,
            pat_integer@ == "integer"@,
            pat_date@ == "date"@,
            pat_data@ == "data"@,
            pat_true@ == "true"@,
            pat_false@ == "false"@,
            next_event(s, i0) == next_event(s, cur.idx as int),
        decreases s.len() - cur.idx,
    {
        proof {
            plist_lit_lens();
        }
        let ghost iter0 = cur.idx as int;
        while cur.idx < chars.len() && is_ws_exec(chars[cur.idx])
            invariant
                cur.wf(),
                cur.text@ == s,
                chars@ == s,
                iter0 <= cur.idx as int,
                skip_ws(s, iter0) == skip_ws(s, cur.idx as int),
            decreases s.len() - cur.idx,
        {
            cur.bump(chars);
        }
        let q = cur.idx;
        assert(skip_ws(s, iter0) == q as int);
        if cur.idx == chars.len() {
            return Ok(Event::EEof);
        }
        if chars[cur.idx] != '<' {
            return Err((PlistErrKind::ExpectedTag, String::new()));
        }
        if chars.len() - cur.idx == 1 {
            cur.bump(chars);
            return Err((PlistErrKind::UnexpectedEnd, String::new()));
        }
        let c = chars[cur.idx + 1];
        if c == '?' {
            let saved = *cur;
            proof {
                lemma_find_at_bounds(s, q + 2, "?>"@);
            }
            cur.bump(chars);
            cur.bump(chars);
            if seek(chars, cur, &pat_pi) {
                cur.bump(chars);
                cur.bump(chars);
            } else {
                *cur = saved;
                return Err((PlistErrKind::Unterminated, String::new()));
            }
        } else if c == '!' {
            let saved = *cur;
            proof {
                lemma_find_at_bounds(s, q + 2, "-->"@);
                lemma_find_at_bounds(s, q + 2, ">"@);
            }
            cur.bump(chars);
            cur.bump(chars);
            if starts_at(chars, cur.idx, &pat_ddash) {
                if seek(chars, cur, &pat_comment) {
                    cur.bump(chars);
                    cur.bump(chars);
                    cur.bump(chars);
                } else {
                    *cur = saved;
                    return Err((PlistErrKind::Unterminated, String::new()));
                }
            } else {
                if seek(chars, cur, &pat_gt) {
                    cur.bump(chars);
                } else {
                    *cur = saved;
                    return Err((PlistErrKind::Unterminated, String::new()));
                }
            }
        } else if c == '/' {
            let saved = *cur;
            cur.bump(chars);
            cur.bump(chars);
            let ghost base = cur.idx as int;
            while cur.idx < chars.len() && is_ws_exec(chars[cur.idx])
                invariant
                    cur.wf(),
                    cur.text@ == s,
                    chars@ == s,
                    base <= cur.idx as int,
                    skip_ws(s, base) == skip_ws(s, cur.idx as int),
                decreases s.len() - cur.idx,
            {
                cur.bump(chars);
            }
            let p = cur.idx;
            assert(skip_ws(s, q + 2) == p as int);
            proof {
                lemma_find_at_bounds(s, p as int, ">"@);
            }
            if starts_at(chars, p, &pat_plist) {
                if seek(chars, cur, &pat_gt) {
                    cur.bump(chars);
                } else {
                    *cur = saved;
                    return Err((PlistErrKind::Unterminated, String::new()));
                }
            } else if starts_at(chars, p, &pat_dict) {
                if seek(chars, cur, &pat_gt) {
                    cur.bump(chars);
                    return Ok(Event::ECloseDict);
                } else {
                    *cur = saved;
                    return Err((PlistErrKind::Unterminated, String::new()));
                }
            } else if starts_at(chars, p, &pat_array) {
                if seek(chars, cur, &pat_gt) {
                    cur.bump(chars);
                    return Ok(Event::ECloseArray);
                } else {
                    *cur = saved;
                    return Err((PlistErrKind::Unterminated, String::new()));
                }
            } else {
                return Err((PlistErrKind::UnexpectedClosedTag, String::new()));
            }
        } else {
            // an opening tag: capture its name up to the `>`
            let saved = *cur;
            proof {
                lemma_find_at_bounds(s, q + 1, ">"@);
            }
            cur.bump(chars);
            if !seek(chars, cur, &pat_gt) {
                *cur = saved;
                return Err((PlistErrKind::Unterminated, String::new()));
            }
            let j = cur.idx;
            cur.bump(chars);
            let is_closed = j > q + 1 && chars[j - 1] == '/';
            let hi = if is_closed {
                j - 1
            } else {
                j
            };
            let ghost rawname = s.subrange(q + 1, j as int);
            let ghost name = if is_closed {
                rawname.drop_last()
            } else {
                rawname
            };
            proof {
                if is_closed {
                    assert(rawname.len() > 0 && rawname.last() == '/');
                    assert(name =~= s.subrange(q + 1, j - 1));
                } else {
                    assert(!(rawname.len() > 0 && rawname.last() == '/')) by {
                        if rawname.len() > 0 {
                            assert(rawname.last() == s[j - 1]);
                        }
                    }
                }
                assert(name == s.subrange(q + 1, hi as int));
            }
            if range_eq(chars, q + 1, hi, &pat_dict) {
                return Ok(Event::EEnterDict);
            } else if range_eq(chars, q + 1, hi, &pat_array) {
                return Ok(Event::EEnterArray);
            } else if range_eq(chars, q + 1, hi, &pat_key) {
                match tag_value_exec(chars, cur, is_closed) {
                    Ok(txt) => {
                        return Ok(Event::EKey(txt));
                    },
                    Err(k) => {
                        return Err((k, String::new()));
                    },
                }
            } else if range_eq(chars, q + 1, hi, &pat_string) || range_eq(
                chars,
                q + 1,
                hi,
                &pat_real,
            ) || range_eq(chars, q + 1, hi, &pat_integer) || range_eq(chars, q + 1, hi, &pat_date)
                || range_eq(chars, q + 1, hi, &pat_data) {
                match tag_value_exec(chars, cur, is_closed) {
                    Ok(txt) => {
                        return Ok(Event::EStr(txt));
                    },
                    Err(k) => {
                        return Err((k, String::new()));
                    },
                }
            } else if range_eq(chars, q + 1, hi, &pat_true) {
                return Ok(Event::EBool(true));
            } else if range_eq(chars, q + 1, hi, &pat_false) {
                return Ok(Event::EBool(false));
            } else if starts_at(chars, q + 1, &pat_plist) {
                // the plist wrapper tag: skip it and go on
            } else {
                let tagchars = copy_range(chars, q + 1, hi);
                let tagtext = string_from_chars(&tagchars);
                return Err((PlistErrKind::UnexpectedOpenedTag, tagtext));
            }
        }
    }
}

/// The characters from `lo` up to `hi` spell exactly `w`.
fn range_eq(chars: &Vec<char>, lo: usize, hi: usize, w: &Vec<char>) -> (r: bool)
    requires
        lo <= hi <= chars@.len(),
    ensures
        r == (chars@.subrange(lo as int, hi as int) == w@),
{
    if hi - lo != w.len() {
        proof {
            assert(chars@.subrange(lo as int, hi as int).len() == hi - lo);
        }
        return false;
    }
    let r = starts_at(chars, lo, w);
    proof {
        if r {
            assert(chars@.subrange(lo as int, lo + w@.len()) =~= chars@.subrange(
                lo as int,
                hi as int,
            ));
        } else {
            assert(chars@.subrange(lo as int, hi as int).len() == w@.len());
        }
    }
    r
}

// --- the executable builder ---

/// One open construct of the executable builder.
enum PFrameX {
    FArr { items: Vec<ConfigTree> },
    FDict { entries: Vec<(String, ConfigTree)>, pending: Option<String> },
    FDone { v: ConfigTree },
}

spec fn pframe_shape(f: PFrameX) -> PFrame {
    match f {
        PFrameX::FArr { items } => PFrame::PArr { items: shape_seq(items@) },
        PFrameX::FDict { entries, pending } => PFrame::PDict {
            entries: shape_pairs(entries@),
            pending: match pending {
                Some(k) => Some(k@),
                None => None,
            },
        },
        PFrameX::FDone { v } => PFrame::PDone { v: v.shape() },
    }
}

spec fn pstack_shape(s: Seq<PFrameX>) -> Seq<PFrame> {
    s.map_values(|f: PFrameX| pframe_shape(f))
}

spec fn pframe_wf(f: PFrameX) -> bool {
    match f {
        PFrameX::FArr { items } => wf_seq(items@),
        PFrameX::FDict { entries, pending } => keys_unique(entries@) && wf_pairs(entries@),
        PFrameX::FDone { v } => v.wf(),
    }
}

spec fn pstack_wf(s: Seq<PFrameX>) -> bool {
    forall|i: int| 0 <= i < s.len() ==> #[trigger] pframe_wf(s[i])
}

broadcast proof fn lemma_pstack_shape_push(s: Seq<PFrameX>, f: PFrameX)
    ensures
        #[trigger] pstack_shape(s.push(f)) =~= pstack_shape(s).push(pframe_shape(f)),
{
}

broadcast proof fn lemma_pstack_shape_drop(s: Seq<PFrameX>)
    requires
        s.len() > 0,
    ensures
        #[trigger] pstack_shape(s.drop_last()) =~= pstack_shape(s).drop_last(),
{
}

/// Hand a completed value to the executable stack; refuse exactly when the
/// specification's `p_deliver` does.
fn p_deliver_exec(stack: &mut Vec<PFrameX>, v: ConfigTree) -> (r: bool)
    requires
        pstack_wf(old(stack)@),
        v.wf(),
    ensures
        match p_deliver(pstack_shape(old(stack)@), v.shape()) {
            Some(st2) => r && pstack_shape(final(stack)@) == st2 && pstack_wf(final(stack)@),
            None => !r && final(stack)@ == old(stack)@,
        },
{
    broadcast use {lemma_pstack_shape_push, lemma_pstack_shape_drop};

    let ghost orig = stack@;
    if stack.len() == 0 {
        stack.push(PFrameX::FDone { v });
        assert(stack@ =~= orig.push(PFrameX::FDone { v }));
        assert(pstack_shape(orig) =~= Seq::<PFrame>::empty());
        assert(pstack_shape(stack@) =~= seq![PFrame::PDone { v: v.shape() }]);
        return true;
    }
    let top = stack.pop().unwrap();
    assert(orig.last() == top);
    assert(stack@ =~= orig.drop_last());
    proof {
        assert(pframe_wf(orig[orig.len() - 1]));
        assert(pstack_shape(orig).last() == pframe_shape(orig.last()));
    }
    match top {
        PFrameX::FArr { mut items } => {
            let ghost old_items = items@;
            items.push(v);
            let f = PFrameX::FArr { items };
            stack.push(f);
            proof {
                crate::tree::lemma_shape_seq_push(old_items, v);
                crate::tree::lemma_wf_seq_push(old_items, v);
                assert(pstack_wf(stack@)) by {
                    assert(forall|i: int| 0 <= i < stack@.len() - 1 ==> stack@[i] == orig[i]);
                    assert(pframe_wf(f));
                }
            }
            true
        },
        PFrameX::FDict { mut entries, pending } => {
            match pending {
                Some(key) => {
                    proof {
                        assert(keys_unique(entries@) && wf_pairs(entries@));
                    }
                    let existed = object_insert(&mut entries, key, v);
                    let f = PFrameX::FDict { entries, pending: None };
                    stack.push(f);
                    proof {
                        assert(pstack_wf(stack@)) by {
                            assert(forall|i: int|
                                0 <= i < stack@.len() - 1 ==> stack@[i] == orig[i]);
                            assert(pframe_wf(f));
                        }
                    }
                    true
                },
                None => {
                    stack.push(PFrameX::FDict { entries, pending: None });
                    assert(stack@ =~= orig);
                    false
                },
            }
        },
        PFrameX::FDone { v: r0 } => {
            stack.push(PFrameX::FDone { v: r0 });
            assert(stack@ =~= orig);
            false
        },
    }
}

/// The error the specification's `p_refuse` picks for this stack.
fn p_refuse_kind(stack: &Vec<PFrameX>) -> (r: PlistErrKind)
    ensures
        r == p_refuse(pstack_shape(stack@)),
{
    proof {
        if stack@.len() > 0 {
            assert(pstack_shape(stack@).last() == pframe_shape(stack@.last()));
        }
    }
    if stack.len() > 0 {
        match &stack[stack.len() - 1] {
            PFrameX::FDone { v } => PlistErrKind::TooManyRoots,
            PFrameX::FArr { items } => PlistErrKind::UnexpectedValue,
            PFrameX::FDict { entries, pending } => PlistErrKind::UnexpectedValue,
        }
    } else {
        PlistErrKind::UnexpectedValue
    }
}

/// Whether the stack can accept a value.
fn p_value_pos_exec(stack: &Vec<PFrameX>) -> (r: bool)
    ensures
        r == p_value_pos(pstack_shape(stack@)),
{
    proof {
        if stack@.len() > 0 {
            assert(pstack_shape(stack@).last() == pframe_shape(stack@.last()));
        }
    }
    if stack.len() == 0 {
        true
    } else {
        match &stack[stack.len() - 1] {
            PFrameX::FArr { items } => true,
            PFrameX::FDict { entries, pending } => pending.is_some(),
            PFrameX::FDone { v } => false,
        }
    }
}

/// Feed one event to the executable builder, exactly as the specification's
/// `p_feed` says.
fn p_apply(stack: &mut Vec<PFrameX>, ev: Event) -> (r: Result<(), PlistErrKind>)
    requires
        pstack_wf(old(stack)@),
    ensures
        match r {
            Ok(()) => p_feed(pstack_shape(old(stack)@), event_shape(ev)) == Ok::<
                Seq<PFrame>,
                PlistErrKind,
            >(pstack_shape(final(stack)@)) && pstack_wf(final(stack)@),
            Err(k) => p_feed(pstack_shape(old(stack)@), event_shape(ev)) == Err::<
                Seq<PFrame>,
                PlistErrKind,
            >(k),
        },
{
    broadcast use {lemma_pstack_shape_push, lemma_pstack_shape_drop};

    let ghost orig = stack@;
    let rk = p_refuse_kind(stack);
    proof {
        if orig.len() > 0 {
            assert(pstack_shape(orig).last() == pframe_shape(orig.last()));
            assert(pframe_wf(orig[orig.len() - 1]));
        }
    }
    match ev {
        Event::EStr(t) => {
            let v = ConfigTree::String(t);
            if p_deliver_exec(stack, v) {
                Ok(())
            } else {
                Err(rk)
            }
        },
        Event::EBool(b) => {
            let v = ConfigTree::Bool(b);
            if p_deliver_exec(stack, v) {
                Ok(())
            } else {
                Err(rk)
            }
        },
        Event::EEnterDict => {
            if p_value_pos_exec(stack) {
                let f = PFrameX::FDict { entries: Vec::new(), pending: None };
                stack.push(f);
                proof {
                    assert(pframe_shape(f) == (PFrame::PDict {
                        entries: shape_pairs(Seq::<(String, ConfigTree)>::empty()),
                        pending: None,
                    }));
                    assert(shape_pairs(Seq::<(String, ConfigTree)>::empty()) =~= Map::<
                        Seq<char>,
                        TreeShape,
                    >::empty());
                    assert(pstack_wf(stack@)) by {
                        assert(forall|i: int| 0 <= i < orig.len() ==> stack@[i] == orig[i]);
                        assert(pframe_wf(f));
                    }
                }
                Ok(())
            } else {
                Err(rk)
            }
        },
        Event::EEnterArray => {
            if p_value_pos_exec(stack) {
                let f = PFrameX::FArr { items: Vec::new() };
                stack.push(f);
                proof {
                    assert(pframe_shape(f) == (PFrame::PArr {
                        items: shape_seq(Seq::<ConfigTree>::empty()),
                    }));
                    assert(shape_seq(Seq::<ConfigTree>::empty()) =~= Seq::<TreeShape>::empty());
                    assert(pstack_wf(stack@)) by {
                        assert(forall|i: int| 0 <= i < orig.len() ==> stack@[i] == orig[i]);
                        assert(pframe_wf(f));
                    }
                }
                Ok(())
            } else {
                Err(rk)
            }
        },
        Event::EKey(k) => {
            if stack.len() == 0 {
                return Err(PlistErrKind::UnexpectedKey);
            }
            let ok_here = match &stack[stack.len() - 1] {
                PFrameX::FDict { entries, pending } => pending.is_none(),
                _ => false,
            };
            if !ok_here {
                return Err(PlistErrKind::UnexpectedKey);
            }
            let top = stack.pop().unwrap();
            match top {
                PFrameX::FDict { entries, pending } => {
                    let f = PFrameX::FDict { entries, pending: Some(k) };
                    stack.push(f);
                    proof {
                        assert(stack@ =~= orig.drop_last().push(f));
                        assert(pstack_wf(stack@)) by {
                            assert(forall|i: int|
                                0 <= i < stack@.len() - 1 ==> stack@[i] == orig[i]);
                            assert(pframe_wf(f));
                        }
                    }
                    Ok(())
                },
                _ => {
                    proof {
                        assert(false);
                    }
                    Err(PlistErrKind::UnexpectedKey)
                },
            }
        },
        Event::ECloseDict => {
            if stack.len() == 0 {
                return Err(PlistErrKind::UnexpectedClose);
            }
            let ok_here = match &stack[stack.len() - 1] {
                PFrameX::FDict { entries, pending } => pending.is_none(),
                _ => false,
            };
            if !ok_here {
                return Err(PlistErrKind::UnexpectedClose);
            }
            let top = stack.pop().unwrap();
            match top {
                PFrameX::FDict { entries, pending } => {
                    let node = ConfigTree::Object(entries);
                    proof {
                        assert(node.wf());
                        assert(node.shape() == (TreeShape::Obj(
                            pframe_shape(orig.last())->PDict_entries,
                        )));
                    }
                    proof {
                        assert(stack@ == orig.drop_last());
                        assert(pstack_shape(stack@) =~= pstack_shape(orig).drop_last());
                    }
                    if p_deliver_exec(stack, node) {
                        Ok(())
                    } else {
                        Err(PlistErrKind::UnexpectedClose)
                    }
                },
                _ => {
                    proof {
                        assert(false);
                    }
                    Err(PlistErrKind::UnexpectedClose)
                },
            }
        },
        Event::ECloseArray => {
            if stack.len() == 0 {
                return Err(PlistErrKind::UnexpectedClose);
            }
            let ok_here = match &stack[stack.len() - 1] {
                PFrameX::FArr { items } => true,
                _ => false,
            };
            if !ok_here {
                return Err(PlistErrKind::UnexpectedClose);
            }
            let top = stack.pop().unwrap();
            match top {
                PFrameX::FArr { items } => {
                    let node = ConfigTree::Array(items);
                    proof {
                        assert(node.wf());
                        assert(node.shape() == (TreeShape::Arr(
                            pframe_shape(orig.last())->PArr_items,
                        )));
                    }
                    proof {
                        assert(stack@ == orig.drop_last());
                        assert(pstack_shape(stack@) =~= pstack_shape(orig).drop_last());
                    }
                    if p_deliver_exec(stack, node) {
                        Ok(())
                    } else {
                        Err(PlistErrKind::UnexpectedClose)
                    }
                },
                _ => {
                    proof {
                        assert(false);
                    }
                    Err(PlistErrKind::UnexpectedClose)
                },
            }
        },
        Event::EEof => Err(PlistErrKind::Unclosed),
    }
}

/// The message each parse failure carries; an unexpected opened tag names
/// the offending tag.
pub open spec fn plist_err_msg(k: PlistErrKind, tag: Seq<char>) -> Seq<char> {
    match k {
        PlistErrKind::ExpectedTag => "expected <"@,
        PlistErrKind::UnexpectedEnd => "unexpected end of input"@,
        PlistErrKind::UnexpectedClosedTag => "unexpected closed tag"@,
        PlistErrKind::UnexpectedOpenedTag => "unexpected opened tag "@ + tag,
        PlistErrKind::Unterminated => "unterminated construct"@,
        PlistErrKind::BadDecimal => "unable to parse decimal number"@,
        PlistErrKind::BadDecimalChar => "invalid decimal escape"@,
        PlistErrKind::BadHex => "unable to parse hex number"@,
        PlistErrKind::BadHexChar => "invalid hex escape"@,
        PlistErrKind::UnexpectedValue => "unexpected value"@,
        PlistErrKind::UnexpectedKey => "unexpected key"@,
        PlistErrKind::UnexpectedClose => "unexpected closing tag"@,
        PlistErrKind::TooManyRoots => "too many constructs in root"@,
        PlistErrKind::Unclosed => "unclosed constructs"@,
    }
}

fn make_plist_error(
    chars: &Vec<char>,
    at: usize,
    off: usize,
    kind: PlistErrKind,
    tag: String,
    file_name: &str,
) -> (r: Error)
    requires
        at <= chars@.len(),
    ensures
        r matches Error::PlistError { err, file_name: f } && f@ == file_name@ && err.message@
            == plist_err_msg(kind, tag@) && err.offset == off && err.sample@ == sample_at(
            chars@,
            at as int,
        ),
{
    let msg: String = match kind {
        PlistErrKind::ExpectedTag => "expected <".to_owned(),
        PlistErrKind::UnexpectedEnd => "unexpected end of input".to_owned(),
        PlistErrKind::UnexpectedClosedTag => "unexpected closed tag".to_owned(),
        PlistErrKind::UnexpectedOpenedTag => {
            let mut m = "unexpected opened tag ".to_owned();
            m.append(tag.as_str());
            m
        },
        PlistErrKind::Unterminated => "unterminated construct".to_owned(),
        PlistErrKind::BadDecimal => "unable to parse decimal number".to_owned(),
        PlistErrKind::BadDecimalChar => "invalid decimal escape".to_owned(),
        PlistErrKind::BadHex => "unable to parse hex number".to_owned(),
        PlistErrKind::BadHexChar => "invalid hex escape".to_owned(),
        PlistErrKind::UnexpectedValue => "unexpected value".to_owned(),
        PlistErrKind::UnexpectedKey => "unexpected key".to_owned(),
        PlistErrKind::UnexpectedClose => "unexpected closing tag".to_owned(),
        PlistErrKind::TooManyRoots => "too many constructs in root".to_owned(),
        PlistErrKind::Unclosed => "unclosed constructs".to_owned(),
    };
    let sample = sample_from(chars, at);
    Error::PlistError {
        err: ParseFault { message: msg, offset: off, sample },
        file_name: file_name.to_owned(),
    }
}

impl Config {
    /// Parse a plist document into the non-debug tree shape: no identifiers
    /// and no location table.
    ///
    /// The result is exactly what the reference semantics `spec_plist` says:
    /// the tree built from the structural events on success (leaf tags
    /// collapse to text, entity-decoded; a colliding dict key keeps the value
    /// written last), or the matching failure, with its message, byte offset
    /// and context sample.
    pub fn from_plist(file_name: &str, content: &str) -> (r: Result<Config, Error>)
        ensures
            match r {
                Ok(cfg) => {
                    &&& spec_plist(content@) matches Ok(sh)
                    &&& cfg matches Config::NonDebug { tree, file_name: fname }
                    &&& fname@ == file_name@
                    &&& tree.shape() == sh
                    &&& tree.wf()
                },
                Err(e) => {
                    &&& spec_plist(content@) matches Err(fault)
                    &&& e matches Error::PlistError { err, file_name: fname }
                    &&& fname@ == file_name@
                    &&& err.message@ == plist_err_msg(fault.kind, fault.tag)
                    &&& err.offset as int == byte_at(content@, fault.at)
                    &&& err.sample@ == sample_at(content@, fault.at)
                },
            },
    {
        broadcast use {lemma_pstack_shape_push};

        let chars = chars_of(content);
        let ghost s = chars@;
        let mut cur = Cursor::new(Ghost(s));
        if chars.len() > 0 && chars[0] == '\u{feff}' {
            cur.bump(&chars);
        }
        let mut stack: Vec<PFrameX> = Vec::new();
        proof {
            assert(pstack_shape(stack@) =~= Seq::<PFrame>::empty());
            assert(spec_plist(s) == plist_run(s, cur.idx as int, pstack_shape(stack@)));
        }
        loop
            invariant_except_break
                spec_plist(s) == plist_run(s, cur.idx as int, pstack_shape(stack@)),
            invariant
                cur.wf(),
                cur.text@ == s,
                chars@ == s,
                content@ == s,
                pstack_wf(stack@),
            ensures
                cur.wf(),
                cur.text@ == s,
                chars@ == s,
                content@ == s,
                pstack_wf(stack@),
                spec_plist(s) == (if pstack_shape(stack@).len() == 1 && pstack_shape(stack@)[0]
                    is PDone {
                    Ok::<TreeShape, PlistErr>(pstack_shape(stack@)[0]->PDone_v)
                } else {
                    Err::<TreeShape, PlistErr>(
                        PlistErr { kind: PlistErrKind::Unclosed, at: cur.idx as int, tag: Seq::empty() },
                    )
                }),
            decreases s.len() - cur.idx,
        {
            let ghost idx0 = cur.idx as int;
            let ghost st0 = pstack_shape(stack@);
            proof {
                lemma_next_event_bounds(s, idx0);
            }
            match next_event_exec(&chars, &mut cur) {
                Err((k, tag)) => {
                    let off = cur.byte;
                    return Err(make_plist_error(&chars, cur.idx, off, k, tag, file_name));
                },
                Ok(ev) => {
                    match ev {
                        Event::EEof => {
                            proof {
                                assert(plist_run(s, idx0, st0) == (if st0.len() == 1 && st0[0]
                                    is PDone {
                                    Ok::<TreeShape, PlistErr>(st0[0]->PDone_v)
                                } else {
                                    Err::<TreeShape, PlistErr>(
                                        PlistErr {
                                            kind: PlistErrKind::Unclosed,
                                            at: cur.idx as int,
                                            tag: Seq::empty(),
                                        },
                                    )
                                }));
                            }
                            break;
                        },
                        other => {
                            match p_apply(&mut stack, other) {
                                Ok(()) => {},
                                Err(k) => {
                                    let off = cur.byte;
                                    return Err(
                                        make_plist_error(
                                            &chars,
                                            cur.idx,
                                            off,
                                            k,
                                            String::new(),
                                            file_name,
                                        ),
                                    );
                                },
                            }
                        },
                    }
                },
            }
        }
        if stack.len() == 1 {
            let ghost pre_stack = stack@;
            let top = stack.pop().unwrap();
            proof {
                assert(pre_stack =~= seq![top]);
                assert(pstack_shape(pre_stack)[0] == pframe_shape(top));
            }
            match top {
                PFrameX::FDone { v } => {
                    proof {
                        assert(pframe_wf(pre_stack[0]));
                    }
                    let fname = file_name.to_owned();
                    return Ok(Config::NonDebug { tree: v, file_name: fname });
                },
                other => {
                    let off = cur.byte;
                    return Err(
                        make_plist_error(
                            &chars,
                            cur.idx,
                            off,
                            PlistErrKind::Unclosed,
                            String::new(),
                            file_name,
                        ),
                    );
                },
            }
        } else {
            let off = cur.byte;
            return Err(
                make_plist_error(
                    &chars,
                    cur.idx,
                    off,
                    PlistErrKind::Unclosed,
                    String::new(),
                    file_name,
                ),
            );
        }
    }
}

} // verus!
