//! Character-level groundwork shared by the parsers: source positions
//! (line, column, byte offset), whitespace, and the trusted bridge between
//! strings and character vectors.

use vstd::prelude::*;

verus! {

broadcast use vstd::std_specs::vec::group_vec_axioms, vstd::seq::group_seq_axioms;

/// Number of bytes the UTF-8 encoding of one character occupies.
pub open spec fn utf8_len(c: char) -> int {
    if (c as u32) < 0x80 {
        1
    } else if (c as u32) < 0x800 {
        2
    } else if (c as u32) < 0x10000 {
        3
    } else {
        4
    }
}

/// Byte offset of character position `i`: the length of the encoding of the
/// text up to, and excluding, that position.
pub open spec fn byte_at(s: Seq<char>, i: int) -> int {
    vstd::utf8::encode_utf8(s.take(i)).len() as int
}

/// 1-indexed line number of character position `i`: one more than the number
/// of line feeds before it.
pub open spec fn line_at(s: Seq<char>, i: int) -> int
    decreases i,
{
    if i <= 0 {
        1
    } else {
        line_at(s, i - 1) + if s[i - 1] == '\n' {
            1int
        } else {
            0int
        }
    }
}

/// 1-indexed column number of character position `i`: a line feed resets the
/// count, so the first character of a line sits in column 1.
pub open spec fn col_at(s: Seq<char>, i: int) -> int
    decreases i,
{
    if i <= 0 {
        1
    } else if s[i - 1] == '\n' {
        1
    } else {
        col_at(s, i - 1) + 1
    }
}

/// `utf8_len` agrees with the length of vstd's character encoding.
pub proof fn lemma_utf8_len_encode(c: char)
    ensures
        vstd::utf8::encode_scalar(c as u32).len() == utf8_len(c),
{
    vstd::utf8::char_is_scalar(c);
}

/// The encoding of a concatenation is the concatenation of the encodings.
pub proof fn lemma_encode_utf8_add(a: Seq<char>, b: Seq<char>)
    ensures
        vstd::utf8::encode_utf8(a + b) == vstd::utf8::encode_utf8(a) + vstd::utf8::encode_utf8(b),
    decreases a.len(),
{
    if a.len() == 0 {
        assert(a + b =~= b);
        assert(vstd::utf8::encode_utf8(a) + vstd::utf8::encode_utf8(b) =~= vstd::utf8::encode_utf8(
            b,
        ));
    } else {
        assert((a + b).drop_first() =~= a.drop_first() + b);
        lemma_encode_utf8_add(a.drop_first(), b);
        assert((a + b)[0] == a[0]);
        assert(vstd::utf8::encode_scalar(a[0] as u32) + (vstd::utf8::encode_utf8(a.drop_first())
            + vstd::utf8::encode_utf8(b)) =~= (vstd::utf8::encode_scalar(a[0] as u32)
            + vstd::utf8::encode_utf8(a.drop_first())) + vstd::utf8::encode_utf8(b));
    }
}

/// Stepping one character forward advances the byte offset by that
/// character's encoded length.
pub proof fn lemma_byte_at_step(s: Seq<char>, i: int)
    requires
        0 <= i < s.len(),
    ensures
        byte_at(s, i + 1) == byte_at(s, i) + utf8_len(s[i]),
{
    assert(s.take(i + 1) =~= s.take(i) + seq![s[i]]);
    lemma_encode_utf8_add(s.take(i), seq![s[i]]);
    lemma_utf8_len_encode(s[i]);
    assert(seq![s[i]].drop_first() =~= Seq::<char>::empty());
    assert(seq![s[i]][0] == s[i]);
    assert(vstd::utf8::encode_utf8(Seq::<char>::empty()) =~= Seq::<u8>::empty());
    assert(vstd::utf8::encode_utf8(seq![s[i]]) == vstd::utf8::encode_scalar(s[i] as u32)
        + vstd::utf8::encode_utf8(seq![s[i]].drop_first()));
    assert(vstd::utf8::encode_scalar(s[i] as u32) + Seq::<u8>::empty()
        =~= vstd::utf8::encode_scalar(s[i] as u32));
}

/// Byte offsets never decrease along the text.
pub proof fn lemma_byte_at_mono(s: Seq<char>, i: int, j: int)
    requires
        0 <= i <= j <= s.len(),
    ensures
        byte_at(s, i) <= byte_at(s, j),
    decreases j - i,
{
    if i < j {
        lemma_byte_at_step(s, j - 1);
        lemma_byte_at_mono(s, i, j - 1);
    }
}

/// Every character occupies at least one byte, so line and column counts are
/// bounded by the byte offset.
pub proof fn lemma_line_col_bound(s: Seq<char>, i: int)
    requires
        0 <= i <= s.len(),
    ensures
        i <= byte_at(s, i),
        line_at(s, i) <= byte_at(s, i) + 1,
        col_at(s, i) <= byte_at(s, i) + 1,
        1 <= line_at(s, i),
        1 <= col_at(s, i),
    decreases i,
{
    assert(s.take(0) =~= Seq::<char>::empty());
    if i > 0 {
        lemma_line_col_bound(s, i - 1);
        lemma_byte_at_step(s, i - 1);
    }
}

/// Executable counterpart of `utf8_len`.
pub fn utf8_len_exec(c: char) -> (r: usize)
    ensures
        r as int == utf8_len(c),
{
    let u: u32 = c as u32;
    if u < 0x80 {
        1
    } else if u < 0x800 {
        2
    } else if u < 0x10000 {
        3
    } else {
        4
    }
}

/// Relies on str::chars: iterating a string yields exactly the characters of
/// its abstract value, in order.  The second clause records that a string's
/// UTF-8 encoding occupies the string's byte length, which, as for every
/// Rust allocation, is at most isize::MAX bytes.
#[verifier::external_body]
pub fn chars_of(s: &str) -> (r: Vec<char>)
    ensures
        r@ == s@,
        vstd::utf8::encode_utf8(r@).len() <= isize::MAX as int,
{
    s.chars().collect()
}

/// Relies on String's FromIterator impl for char: collecting characters
/// builds the string holding exactly those characters, in order.
#[verifier::external_body]
pub fn string_from_chars(v: &Vec<char>) -> (r: String)
    ensures
        r@ == v@,
{
    v.iter().collect()
}

/// Relies on char::from_u32: it returns the character with the given code
/// exactly for Unicode scalar values (at most 0x10FFFF and not a surrogate),
/// and `None` otherwise.
#[verifier::external_body]
pub fn char_from_u32(v: u32) -> (r: Option<char>)
    ensures
        r matches Some(c) ==> c as u32 == v,
        r is Some <==> vstd::utf8::is_scalar(v),
{
    char::from_u32(v)
}

/// A cursor over a character vector that keeps the source position of the
/// character it stands on.
#[derive(Clone, Copy)]
pub struct Cursor {
    pub idx: usize,
    pub line: usize,
    pub col: usize,
    pub byte: usize,
    pub text: Ghost<Seq<char>>,
}

impl Cursor {
    /// The counters agree with the position spec functions, and the whole
    /// text's encoding is small enough that none of them can overflow.
    pub open spec fn wf(self) -> bool {
        &&& 0 <= self.idx <= self.text@.len()
        &&& self.byte as int == byte_at(self.text@, self.idx as int)
        &&& self.line as int == line_at(self.text@, self.idx as int)
        &&& self.col as int == col_at(self.text@, self.idx as int)
        &&& vstd::utf8::encode_utf8(self.text@).len() <= isize::MAX as int
    }

    /// Start of the given text.
    pub fn new(Ghost(text): Ghost<Seq<char>>) -> (r: Cursor)
        requires
            vstd::utf8::encode_utf8(text).len() <= isize::MAX as int,
        ensures
            r.wf(),
            r.text@ == text,
            r.idx == 0,
    {
        proof {
            assert(text.take(0) =~= Seq::<char>::empty());
        }
        Cursor { idx: 0, line: 1, col: 1, byte: 0, text: Ghost(text) }
    }

    /// Step over the character under the cursor.
    pub fn bump(&mut self, chars: &Vec<char>)
        requires
            old(self).wf(),
            chars@ == old(self).text@,
            old(self).idx < chars@.len(),
        ensures
            final(self).wf(),
            final(self).text@ == old(self).text@,
            final(self).idx == old(self).idx + 1,
    {
        proof {
            lemma_byte_at_step(self.text@, self.idx as int);
            lemma_byte_at_mono(self.text@, self.idx as int + 1, self.text@.len() as int);
            lemma_line_col_bound(self.text@, self.idx as int + 1);
            lemma_line_col_bound(self.text@, self.idx as int);
            assert(vstd::utf8::encode_utf8(self.text@.take(self.text@.len() as int)).len()
                == vstd::utf8::encode_utf8(self.text@).len()) by {
                assert(self.text@.take(self.text@.len() as int) =~= self.text@);
            }
        }
        let c = chars[self.idx];
        self.byte = self.byte + utf8_len_exec(c);
        if c == '\n' {
            self.line = self.line + 1;
            self.col = 1;
        } else {
            self.col = self.col + 1;
        }
        self.idx = self.idx + 1;
    }

    /// The location of the character the cursor stands on.
    pub fn here(&self) -> (r: crate::document::Location)
        requires
            self.wf(),
        ensures
            r == loc_at(self.text@, self.idx as int),
    {
        crate::document::Location {
            line_number: self.line,
            column_number: self.col,
            byte_number: self.byte,
        }
    }
}

/// Whitespace skipped between tokens: space, tab, carriage return, line feed.
pub open spec fn is_ws(c: char) -> bool {
    c == ' ' || c == '\t' || c == '\r' || c == '\n'
}

/// Executable counterpart of `is_ws`.
pub fn is_ws_exec(c: char) -> (r: bool)
    ensures
        r == is_ws(c),
{
    c == ' ' || c == '\t' || c == '\r' || c == '\n'
}

/// First position at or after `i` holding a non-whitespace character.
pub open spec fn skip_ws(s: Seq<char>, i: int) -> int
    decreases s.len() - i,
{
    if 0 <= i < s.len() && is_ws(s[i]) {
        skip_ws(s, i + 1)
    } else {
        i
    }
}

/// Bounds on `skip_ws` for any starting position: it never moves backward,
/// and from a position inside the text it stays inside.
pub proof fn lemma_skip_ws_bounds_any(s: Seq<char>, i: int)
    ensures
        i <= skip_ws(s, i),
        0 <= i <= s.len() ==> skip_ws(s, i) <= s.len(),
        !(0 <= i <= s.len()) ==> skip_ws(s, i) == i,
    decreases s.len() - i,
{
    if 0 <= i < s.len() && is_ws(s[i]) {
        lemma_skip_ws_bounds_any(s, i + 1);
    }
}

pub proof fn lemma_skip_ws_bounds(s: Seq<char>, i: int)
    requires
        0 <= i <= s.len(),
    ensures
        i <= skip_ws(s, i) <= s.len(),
    decreases s.len() - i,
{
    if i < s.len() && is_ws(s[i]) {
        lemma_skip_ws_bounds(s, i + 1);
    }
}

/// Up to 50 characters of upcoming input, starting at position `i`.
pub open spec fn sample_at(s: Seq<char>, i: int) -> Seq<char> {
    s.subrange(
        i,
        if i + 50 <= s.len() {
            i + 50
        } else {
            s.len() as int
        },
    )
}

/// Collect the context sample that `sample_at` describes.
#[verifier::loop_isolation(false)]
pub fn sample_from(chars: &Vec<char>, at: usize) -> (r: String)
    requires
        at <= chars@.len(),
    ensures
        r@ == sample_at(chars@, at as int),
{
    let mut v: Vec<char> = Vec::new();
    let end: usize = if chars.len() - at >= 50 {
        at + 50
    } else {
        chars.len()
    };
    let mut j: usize = at;
    while j < end
        invariant
            at <= j <= end <= chars@.len(),
            v@ == chars@.subrange(at as int, j as int),
        decreases end - j,
    {
        let ghost before = j as int;
        v.push(chars[j]);
        j += 1;
        proof {
            assert(v@ =~= chars@.subrange(at as int, before + 1));
        }
    }
    proof {
        assert(v@ =~= sample_at(chars@, at as int));
    }
    string_from_chars(&v)
}

/// The location of character position `i`, with the counters as they are
/// carried at run time.
pub open spec fn loc_at(s: Seq<char>, i: int) -> crate::document::Location {
    crate::document::Location {
        line_number: line_at(s, i) as usize,
        column_number: col_at(s, i) as usize,
        byte_number: byte_at(s, i) as usize,
    }
}

} // verus!
