//! Character-level text operations with their mathematical meaning.
//!
//! Text is modelled as `Seq<char>`, the view that vstd gives `str` and
//! `String`.  The spec functions here state what the corresponding `str`
//! operations compute; the executable functions compute them on slices of
//! characters and are proved to agree.
use vstd::prelude::*;
use vstd::string::*;

verus! {

// ---------------------------------------------------------------------
// Conversions between strings and character vectors
// ---------------------------------------------------------------------

/// `String::from_utf8`: succeeds exactly on valid UTF-8, with the decoded
/// characters.
#[verifier::external_body]
pub(crate) fn string_from_utf8(bytes: Vec<u8>) -> (r: Option<String>)
    ensures
        r is Some <==> vstd::utf8::valid_utf8(bytes@),
        r matches Some(s) ==> s@ == vstd::utf8::decode_utf8(bytes@),
{
    String::from_utf8(bytes).ok()
}

/// Appends the UTF-8 encoding of `c` to `out`.
fn push_utf8(out: &mut Vec<u8>, c: char)
    ensures
        final(out)@ == old(out)@ + vstd::utf8::encode_scalar(c as u32),
{
    let v = c as u32;
    proof {
        vstd::utf8::char_is_scalar(c);
    }
    let ghost before = out@;
    if v <= 0x7F {
        out.push((v & 0x7F) as u8);
    } else if v <= 0x7FF {
        out.push(0xC0 | ((v >> 6) & 0x1F) as u8);
        out.push(0x80 | (v & 0x3F) as u8);
    } else if v <= 0xFFFF {
        out.push(0xE0 | ((v >> 12) & 0x0F) as u8);
        out.push(0x80 | ((v >> 6) & 0x3F) as u8);
        out.push(0x80 | (v & 0x3F) as u8);
    } else {
        out.push(0xF0 | ((v >> 18) & 0x7) as u8);
        out.push(0x80 | ((v >> 12) & 0x3F) as u8);
        out.push(0x80 | ((v >> 6) & 0x3F) as u8);
        out.push(0x80 | (v & 0x3F) as u8);
    }
    assert(out@ =~= before + vstd::utf8::encode_scalar(v));
}

/// The encoding of two sequences one after the other is the concatenation
/// of their encodings.
pub proof fn lemma_encode_utf8_concat(a: Seq<char>, b: Seq<char>)
    ensures
        vstd::utf8::encode_utf8(a + b) == vstd::utf8::encode_utf8(a) + vstd::utf8::encode_utf8(b),
    decreases a.len(),
{
    if a.len() == 0 {
        assert(a + b =~= b);
    } else {
        assert((a + b).drop_first() =~= a.drop_first() + b);
        lemma_encode_utf8_concat(a.drop_first(), b);
    }
}

/// The string holding exactly the characters `chars`, in order.
pub(crate) fn string_from_chars(chars: &[char]) -> (s: String)
    ensures
        s@ == chars@,
{
    let mut bytes: Vec<u8> = Vec::new();
    let mut i: usize = 0;
    assert(chars@.take(0) =~= Seq::<char>::empty());
    while i < chars.len()
        invariant
            i <= chars@.len(),
            bytes@ == vstd::utf8::encode_utf8(chars@.take(i as int)),
        decreases chars.len() - i,
    {
        proof {
            let c = chars@[i as int];
            assert(chars@.take(i + 1) =~= chars@.take(i as int) + seq![c]);
            lemma_encode_utf8_concat(chars@.take(i as int), seq![c]);
            vstd::utf8::char_is_scalar(c);
            reveal_with_fuel(vstd::utf8::encode_utf8, 2);
            assert(seq![c].drop_first() =~= Seq::<char>::empty());
            assert(vstd::utf8::encode_utf8(seq![c]) =~= vstd::utf8::encode_scalar(c as u32));
        }
        push_utf8(&mut bytes, chars[i]);
        i += 1;
    }
    proof {
        assert(chars@.take(i as int) =~= chars@);
        vstd::utf8::encode_utf8_valid_utf8(chars@);
        vstd::utf8::encode_utf8_decode_utf8(chars@);
    }
    match string_from_utf8(bytes) {
        Some(s) => s,
        None => {
            proof {
                assert(false);
            }
            String::new()
        },
    }
}

/// The characters of `s`, in order.
pub fn chars_of(s: &str) -> (v: Vec<char>)
    ensures
        v@ == s@,
{
    let mut v: Vec<char> = Vec::new();
    for c in it: s.chars()
        invariant
            v@ == it.seq().take(it.index() as int),
            it.seq() == s@,
    {
        v.push(c);
    }
    v
}

/// Appends all characters of `src` to `dst`.
pub fn push_all(dst: &mut Vec<char>, src: &[char])
    ensures
        final(dst)@ == old(dst)@ + src@,
{
    let mut i: usize = 0;
    while i < src.len()
        invariant
            i <= src.len(),
            dst@ == old(dst)@ + src@.take(i as int),
        decreases src.len() - i,
    {
        dst.push(src[i]);
        i += 1;
        assert(src@.take(i as int) =~= src@.take(i - 1).push(src@[i - 1]));
    }
    assert(src@.take(i as int) =~= src@);
}

/// Appends all characters of the string `src` to `dst`.
pub fn push_str(dst: &mut Vec<char>, src: &str)
    ensures
        final(dst)@ == old(dst)@ + src@,
{
    let cs = chars_of(src);
    push_all(dst, cs.as_slice());
}

/// A copy of `s[from..to]`.
pub fn copy_range(s: &[char], from: usize, to: usize) -> (v: Vec<char>)
    requires
        from <= to <= s@.len(),
    ensures
        v@ == s@.subrange(from as int, to as int),
{
    let mut v: Vec<char> = Vec::new();
    let mut i: usize = from;
    while i < to
        invariant
            from <= i <= to <= s@.len(),
            v@ == s@.subrange(from as int, i as int),
        decreases to - i,
    {
        v.push(s[i]);
        i += 1;
        assert(s@.subrange(from as int, i as int) =~= s@.subrange(from as int, i - 1).push(
            s@[i - 1],
        ));
    }
    v
}

// ---------------------------------------------------------------------
// UTF-8 length
// ---------------------------------------------------------------------

/// Number of bytes of the UTF-8 encoding of `c`.
pub open spec fn char_utf8_len(c: char) -> nat {
    if (c as u32) < 0x80 {
        1
    } else if (c as u32) < 0x800 {
        2
    } else if (c as u32) < 0x10000 {
        3
    } else {
        4
    }
}

/// Number of bytes of the UTF-8 encoding of `s` (what `str::len` returns).
pub open spec fn utf8_len(s: Seq<char>) -> nat {
    vstd::utf8::encode_utf8(s).len()
}

pub proof fn lemma_utf8_len_concat(a: Seq<char>, b: Seq<char>)
    ensures
        utf8_len(a + b) == utf8_len(a) + utf8_len(b),
    decreases a.len(),
{
    if a.len() == 0 {
        assert(a + b =~= b);
    } else {
        assert((a + b).drop_first() =~= a.drop_first() + b);
        lemma_utf8_len_concat(a.drop_first(), b);
    }
}

pub proof fn lemma_utf8_len_char(c: char)
    ensures
        utf8_len(seq![c]) == char_utf8_len(c),
{
    vstd::utf8::char_is_scalar(c);
    reveal_with_fuel(vstd::utf8::encode_utf8, 2);
    assert(seq![c].drop_first() =~= Seq::<char>::empty());
}

pub proof fn lemma_utf8_len_push(s: Seq<char>, c: char)
    ensures
        utf8_len(s.push(c)) == utf8_len(s) + char_utf8_len(c),
{
    lemma_utf8_len_concat(s, seq![c]);
    lemma_utf8_len_char(c);
    assert(s.push(c) =~= s + seq![c]);
}

pub proof fn lemma_utf8_len_ge_len(s: Seq<char>)
    ensures
        utf8_len(s) >= s.len(),
    decreases s.len(),
{
    if s.len() > 0 {
        lemma_utf8_len_ge_len(s.drop_last());
        lemma_utf8_len_push(s.drop_last(), s.last());
        assert(s.drop_last().push(s.last()) =~= s);
    }
}

/// Byte width of `c` in UTF-8.
pub fn char_utf8_len_exec(c: char) -> (n: usize)
    ensures
        n == char_utf8_len(c),
{
    let u = c as u32;
    if u < 0x80 {
        1
    } else if u < 0x800 {
        2
    } else if u < 0x10000 {
        3
    } else {
        4
    }
}

/// Byte length of the UTF-8 encoding of `s`.
pub fn utf8_len_exec(s: &[char]) -> (n: usize)
    requires
        utf8_len(s@) <= usize::MAX,
    ensures
        n == utf8_len(s@),
{
    proof {
        assert(s@.take(0) =~= Seq::<char>::empty());
    }
    let mut n: usize = 0;
    let mut i: usize = 0;
    while i < s.len()
        invariant
            i <= s.len(),
            n == utf8_len(s@.take(i as int)),
            utf8_len(s@) <= usize::MAX,
        decreases s.len() - i,
    {
        proof {
            lemma_utf8_len_push(s@.take(i as int), s@[i as int]);
            assert(s@.take(i + 1) =~= s@.take(i as int).push(s@[i as int]));
            lemma_utf8_len_concat(s@.take(i + 1), s@.skip(i + 1));
            assert(s@.take(i + 1) + s@.skip(i + 1) =~= s@);
        }
        n = n + char_utf8_len_exec(s[i]);
        i += 1;
    }
    assert(s@.take(i as int) =~= s@);
    n
}

/// Whether the UTF-8 encoding of `s` is longer than `limit` bytes.
pub fn utf8_len_exceeds(s: &[char], limit: usize) -> (r: bool)
    ensures
        r == (utf8_len(s@) > limit),
{
    proof {
        assert(s@.take(0) =~= Seq::<char>::empty());
    }
    let mut n: usize = 0;
    let mut i: usize = 0;
    while i < s.len()
        invariant
            i <= s.len(),
            n == utf8_len(s@.take(i as int)),
            n <= limit,
        decreases s.len() - i,
    {
        proof {
            lemma_utf8_len_push(s@.take(i as int), s@[i as int]);
            assert(s@.take(i + 1) =~= s@.take(i as int).push(s@[i as int]));
        }
        let w = char_utf8_len_exec(s[i]);
        if w > limit - n {
            proof {
                lemma_utf8_len_concat(s@.take(i + 1), s@.skip(i + 1));
                assert(s@.take(i + 1) + s@.skip(i + 1) =~= s@);
            }
            return true;
        }
        n = n + w;
        i += 1;
    }
    assert(s@.take(i as int) =~= s@);
    false
}

// ---------------------------------------------------------------------
// Searching
// ---------------------------------------------------------------------

/// `p` occurs in `s` starting at index `i`.
pub open spec fn matches_at(s: Seq<char>, i: int, p: Seq<char>) -> bool {
    &&& 0 <= i
    &&& i + p.len() <= s.len()
    &&& s.subrange(i, i + p.len()) == p
}

/// `s` starts with `p` (`str::starts_with`).
pub open spec fn starts_with(s: Seq<char>, p: Seq<char>) -> bool {
    matches_at(s, 0, p)
}

/// `s` ends with `p` (`str::ends_with`).
pub open spec fn ends_with(s: Seq<char>, p: Seq<char>) -> bool {
    matches_at(s, s.len() - p.len(), p)
}

/// The first index at or after `from` where `p` occurs in `s`.
pub open spec fn find_from(s: Seq<char>, from: int, p: Seq<char>) -> Option<int>
    decreases s.len() + 1 - from,
{
    if from < 0 || from + p.len() > s.len() {
        None
    } else if matches_at(s, from, p) {
        Some(from)
    } else {
        find_from(s, from + 1, p)
    }
}

/// The first index where `p` occurs in `s` (`str::find`, counted in characters).
pub open spec fn find(s: Seq<char>, p: Seq<char>) -> Option<int> {
    find_from(s, 0, p)
}

pub proof fn lemma_find_from_props(s: Seq<char>, from: int, p: Seq<char>)
    requires
        0 <= from,
    ensures
        find_from(s, from, p) matches Some(k) ==> from <= k && matches_at(s, k, p) && forall|j: int|
            from <= j < k ==> !matches_at(s, j, p),
        find_from(s, from, p) is None ==> forall|j: int| from <= j ==> !matches_at(s, j, p),
    decreases s.len() + 1 - from,
{
    if from + p.len() > s.len() {
    } else if matches_at(s, from, p) {
    } else {
        lemma_find_from_props(s, from + 1, p);
    }
}

/// Whether `p` occurs in `s` at index `i`.
pub fn matches_at_exec(s: &[char], i: usize, p: &[char]) -> (r: bool)
    ensures
        r == matches_at(s@, i as int, p@),
{
    if i > s.len() || p.len() > s.len() - i {
        return false;
    }
    let mut k: usize = 0;
    while k < p.len()
        invariant
            k <= p.len(),
            i + p.len() <= s.len(),
            forall|j: int| 0 <= j < k ==> s@[i + j] == p@[j],
        decreases p.len() - k,
    {
        if s[i + k] != p[k] {
            assert(s@.subrange(i as int, i + p.len())[k as int] != p@[k as int]);
            return false;
        }
        k += 1;
    }
    assert(s@.subrange(i as int, i + p.len()) =~= p@);
    true
}

/// First index at or after `from` where `p` occurs in `s`.
pub fn find_from_exec(s: &[char], from: usize, p: &[char]) -> (r: Option<usize>)
    ensures
        r matches Some(k) ==> find_from(s@, from as int, p@) == Some(k as int),
        r is None ==> find_from(s@, from as int, p@) is None,
{
    if from > s.len() || p.len() > s.len() - from {
        return None;
    }
    let last = s.len() - p.len();
    let mut i: usize = from;
    loop
        invariant
            from <= i <= last,
            last + p.len() == s.len(),
            find_from(s@, from as int, p@) == find_from(s@, i as int, p@),
        decreases last - i,
    {
        if matches_at_exec(s, i, p) {
            return Some(i);
        }
        if i == last {
            assert(find_from(s@, i + 1, p@) is None);
            return None;
        }
        i += 1;
    }
}

/// First index where `p` occurs in `s`.
pub fn find_exec(s: &[char], p: &[char]) -> (r: Option<usize>)
    ensures
        r matches Some(k) ==> find(s@, p@) == Some(k as int),
        r is None ==> find(s@, p@) is None,
{
    find_from_exec(s, 0, p)
}

/// First index where the literal `p` occurs in `s`.
pub fn find_str(s: &[char], p: &str) -> (r: Option<usize>)
    ensures
        r matches Some(k) ==> find(s@, p@) == Some(k as int),
        r is None ==> find(s@, p@) is None,
{
    let pc = chars_of(p);
    find_exec(s, pc.as_slice())
}

/// Whether the literal `p` occurs at index `i` of `s`.
pub fn matches_str_at(s: &[char], i: usize, p: &str) -> (r: bool)
    ensures
        r == matches_at(s@, i as int, p@),
{
    let pc = chars_of(p);
    matches_at_exec(s, i, pc.as_slice())
}

/// Whether `s` ends with the character `c`.
pub fn ends_with_char(s: &[char], c: char) -> (r: bool)
    ensures
        r == (s@.len() > 0 && s@.last() == c),
{
    s.len() > 0 && s[s.len() - 1] == c
}

// ---------------------------------------------------------------------
// Whitespace and trimming
// ---------------------------------------------------------------------

/// Unicode `White_Space`, the property that `char::is_whitespace` tests.
pub open spec fn is_whitespace(c: char) -> bool {
    let u = c as u32;
    ||| 0x09 <= u <= 0x0d
    ||| u == 0x20
    ||| u == 0x85
    ||| u == 0xa0
    ||| u == 0x1680
    ||| 0x2000 <= u <= 0x200a
    ||| u == 0x2028
    ||| u == 0x2029
    ||| u == 0x202f
    ||| u == 0x205f
    ||| u == 0x3000
}

pub fn is_whitespace_exec(c: char) -> (r: bool)
    ensures
        r == is_whitespace(c),
{
    let u = c as u32;
    (0x09 <= u && u <= 0x0d) || u == 0x20 || u == 0x85 || u == 0xa0 || u == 0x1680 || (0x2000
        <= u && u <= 0x200a) || u == 0x2028 || u == 0x2029 || u == 0x202f || u == 0x205f || u
        == 0x3000
}

/// `s` without its leading whitespace.
pub open spec fn trim_start(s: Seq<char>) -> Seq<char>
    decreases s.len(),
{
    if s.len() > 0 && is_whitespace(s[0]) {
        trim_start(s.drop_first())
    } else {
        s
    }
}

/// `s` without its trailing whitespace.
pub open spec fn trim_end(s: Seq<char>) -> Seq<char>
    decreases s.len(),
{
    if s.len() > 0 && is_whitespace(s.last()) {
        trim_end(s.drop_last())
    } else {
        s
    }
}

/// `s` without leading and trailing whitespace (`str::trim`).
pub open spec fn trim(s: Seq<char>) -> Seq<char> {
    trim_end(trim_start(s))
}

/// Trimming the start drops a prefix and leaves no leading whitespace.
pub proof fn lemma_trim_start_shape(s: Seq<char>) -> (k: int)
    ensures
        0 <= k <= s.len(),
        trim_start(s) == s.skip(k),
        trim_start(s).len() > 0 ==> !is_whitespace(trim_start(s)[0]),
    decreases s.len(),
{
    if s.len() > 0 && is_whitespace(s[0]) {
        let k = lemma_trim_start_shape(s.drop_first());
        assert(s.drop_first().skip(k) =~= s.skip(k + 1));
        k + 1
    } else {
        assert(s.skip(0) =~= s);
        0
    }
}

/// Trimming the end keeps a prefix and leaves no trailing whitespace.
pub proof fn lemma_trim_end_shape(s: Seq<char>) -> (k: int)
    ensures
        0 <= k <= s.len(),
        trim_end(s) == s.take(k),
        trim_end(s).len() > 0 ==> !is_whitespace(trim_end(s).last()),
    decreases s.len(),
{
    if s.len() > 0 && is_whitespace(s.last()) {
        let k = lemma_trim_end_shape(s.drop_last());
        assert(s.drop_last().take(k) =~= s.take(k));
        k
    } else {
        assert(s.take(s.len() as int) =~= s);
        s.len() as int
    }
}

/// `trim(s)` is the part of `s` between two indices, and trimming it again
/// changes nothing.
pub proof fn lemma_trim_shape(s: Seq<char>) -> (ab: (int, int))
    ensures
        0 <= ab.0 <= ab.1 <= s.len(),
        trim(s) == s.subrange(ab.0, ab.1),
        trim(trim(s)) == trim(s),
{
    let a = lemma_trim_start_shape(s);
    let t = trim_start(s);
    let b = lemma_trim_end_shape(t);
    let y = trim(s);
    assert(y =~= s.subrange(a, a + b));
    if y.len() > 0 {
        assert(y[0] == t[0]);
    }
    assert(trim_start(y) == y);
    lemma_trim_end_shape(y);
    if y.len() > 0 {
        assert(trim_end(y) == y);
    }
    (a, a + b)
}

/// `s` without leading occurrences of `c` (`str::trim_start_matches` with a char).
pub open spec fn trim_start_char(s: Seq<char>, c: char) -> Seq<char>
    decreases s.len(),
{
    if s.len() > 0 && s[0] == c {
        trim_start_char(s.drop_first(), c)
    } else {
        s
    }
}

/// `s` without trailing occurrences of `c` (`str::trim_end_matches` with a char).
pub open spec fn trim_end_char(s: Seq<char>, c: char) -> Seq<char>
    decreases s.len(),
{
    if s.len() > 0 && s.last() == c {
        trim_end_char(s.drop_last(), c)
    } else {
        s
    }
}

/// The characters of `s` with leading and trailing whitespace removed.
pub fn trim_exec(s: &[char]) -> (v: Vec<char>)
    ensures
        v@ == trim(s@),
{
    let mut a: usize = 0;
    assert(s@.skip(0) =~= s@);
    while a < s.len() && is_whitespace_exec(s[a])
        invariant
            a <= s.len(),
            trim_start(s@) == trim_start(s@.skip(a as int)),
        decreases s.len() - a,
    {
        assert(s@.skip(a as int).drop_first() =~= s@.skip(a + 1));
        a += 1;
    }
    assert(trim_start(s@) == s@.subrange(a as int, s.len() as int)) by {
        assert(s@.skip(a as int) =~= s@.subrange(a as int, s.len() as int));
    }
    let mut b: usize = s.len();
    while b > a && is_whitespace_exec(s[b - 1])
        invariant
            a <= b <= s.len(),
            trim(s@) == trim_end(s@.subrange(a as int, b as int)),
        decreases b,
    {
        assert(s@.subrange(a as int, b as int).drop_last() =~= s@.subrange(a as int, b - 1));
        b -= 1;
    }
    copy_range(s, a, b)
}

/// The characters of `s` with leading occurrences of `c` removed.
pub fn trim_start_char_exec(s: &[char], c: char) -> (v: Vec<char>)
    ensures
        v@ == trim_start_char(s@, c),
{
    let mut a: usize = 0;
    assert(s@.skip(0) =~= s@);
    while a < s.len() && s[a] == c
        invariant
            a <= s.len(),
            trim_start_char(s@, c) == trim_start_char(s@.skip(a as int), c),
        decreases s.len() - a,
    {
        assert(s@.skip(a as int).drop_first() =~= s@.skip(a + 1));
        a += 1;
    }
    assert(s@.skip(a as int) =~= s@.subrange(a as int, s.len() as int));
    copy_range(s, a, s.len())
}

/// The characters of `s` with trailing occurrences of `c` removed.
pub fn trim_end_char_exec(s: &[char], c: char) -> (v: Vec<char>)
    ensures
        v@ == trim_end_char(s@, c),
{
    let mut b: usize = s.len();
    assert(s@.subrange(0, b as int) =~= s@);
    while b > 0 && s[b - 1] == c
        invariant
            b <= s.len(),
            trim_end_char(s@, c) == trim_end_char(s@.subrange(0, b as int), c),
        decreases b,
    {
        assert(s@.subrange(0, b as int).drop_last() =~= s@.subrange(0, b - 1));
        b -= 1;
    }
    copy_range(s, 0, b)
}

// ---------------------------------------------------------------------
// Splitting, lines, joining, replacing
// ---------------------------------------------------------------------

/// The pieces of `s` between occurrences of `c` (`str::split` with a char);
/// there is always at least one piece.
pub open spec fn split_char(s: Seq<char>, c: char) -> Seq<Seq<char>>
    decreases s.len(),
{
    if s.len() == 0 {
        seq![Seq::<char>::empty()]
    } else {
        let r = split_char(s.drop_last(), c);
        if s.last() == c {
            r.push(Seq::<char>::empty())
        } else {
            r.update(r.len() - 1, r.last().push(s.last()))
        }
    }
}

pub proof fn lemma_split_char_nonempty(s: Seq<char>, c: char)
    ensures
        split_char(s, c).len() >= 1,
    decreases s.len(),
{
    if s.len() > 0 {
        lemma_split_char_nonempty(s.drop_last(), c);
    }
}

/// `l` without one trailing carriage return.
pub open spec fn strip_cr(l: Seq<char>) -> Seq<char> {
    if l.len() > 0 && l.last() == '\r' {
        l.drop_last()
    } else {
        l
    }
}

/// The lines of `s` (`str::lines`): pieces between `'\n'`, each line ended
/// by `'\n'` losing one trailing `'\r'`, with no empty line after a final `'\n'`.
pub open spec fn lines(s: Seq<char>) -> Seq<Seq<char>> {
    let parts = split_char(s, '\n');
    if s.len() == 0 {
        Seq::empty()
    } else if s.last() == '\n' {
        parts.drop_last().map_values(|l: Seq<char>| strip_cr(l))
    } else {
        parts.drop_last().map_values(|l: Seq<char>| strip_cr(l)).push(parts.last())
    }
}

/// The parts joined with `sep` between consecutive parts (`[T]::join`).
pub open spec fn join(parts: Seq<Seq<char>>, sep: Seq<char>) -> Seq<char>
    decreases parts.len(),
{
    if parts.len() == 0 {
        Seq::empty()
    } else if parts.len() == 1 {
        parts[0]
    } else {
        join(parts.drop_last(), sep) + sep + parts.last()
    }
}

/// Joining the first `k` parts gives a prefix of joining them all.
pub proof fn lemma_join_prefix(parts: Seq<Seq<char>>, sep: Seq<char>, k: int)
    requires
        1 <= k <= parts.len(),
    ensures
        join(parts.take(k), sep).len() <= join(parts, sep).len(),
        join(parts, sep).take(join(parts.take(k), sep).len() as int) == join(parts.take(k), sep),
    decreases parts.len(),
{
    if k == parts.len() {
        assert(parts.take(k) =~= parts);
        assert(join(parts, sep).take(join(parts, sep).len() as int) =~= join(parts, sep));
    } else {
        let p = parts.drop_last();
        assert(p.take(k) =~= parts.take(k));
        lemma_join_prefix(p, sep, k);
        let jk = join(parts.take(k), sep);
        assert(join(parts, sep) == join(p, sep) + sep + parts.last());
        assert(join(parts, sep).take(jk.len() as int) =~= join(p, sep).take(jk.len() as int));
    }
}

/// Where part `i` starts in `join(parts, sep)`: after the earlier parts,
/// each followed by a separator.
pub open spec fn join_offset(parts: Seq<Seq<char>>, sep: Seq<char>, i: int) -> int
    decreases i,
{
    if i <= 0 {
        0
    } else {
        join_offset(parts, sep, i - 1) + parts[i - 1].len() + sep.len()
    }
}

proof fn lemma_join_offset_prefix(parts: Seq<Seq<char>>, sep: Seq<char>, k: int, i: int)
    requires
        0 <= i <= k <= parts.len(),
    ensures
        join_offset(parts.take(k), sep, i) == join_offset(parts, sep, i),
    decreases i,
{
    if i > 0 {
        lemma_join_offset_prefix(parts, sep, k, i - 1);
    }
}

/// Offsets grow with the index.
pub proof fn lemma_join_offset_grows(parts: Seq<Seq<char>>, sep: Seq<char>, i: int, j: int)
    requires
        0 <= i <= j,
    ensures
        join_offset(parts, sep, i) + (if i < j {
            parts[i].len() + sep.len()
        } else {
            0
        }) <= join_offset(parts, sep, j),
    decreases j,
{
    if i < j {
        lemma_join_offset_grows(parts, sep, i, j - 1);
    }
}

/// Each part of a join stands at its offset, and the join ends with the
/// last part.
pub proof fn lemma_join_parts_at_offsets(parts: Seq<Seq<char>>, sep: Seq<char>)
    ensures
        parts.len() > 0 ==> join(parts, sep).len() == join_offset(parts, sep, parts.len() - 1)
            + parts.last().len(),
        forall|i: int|
            #![trigger join_offset(parts, sep, i)]
            0 <= i < parts.len() ==> join_offset(parts, sep, i) + parts[i].len() <= join(
                parts,
                sep,
            ).len() && join(parts, sep).subrange(
                join_offset(parts, sep, i),
                join_offset(parts, sep, i) + parts[i].len(),
            ) == parts[i],
    decreases parts.len(),
{
    if parts.len() == 1 {
        assert(join(parts, sep).subrange(0, parts[0].len() as int) =~= parts[0]);
    } else if parts.len() > 1 {
        let p = parts.drop_last();
        lemma_join_parts_at_offsets(p, sep);
        let jp = join(p, sep);
        let whole = join(parts, sep);
        assert(whole == jp + sep + parts.last());
        lemma_join_offset_prefix(parts, sep, parts.len() - 1, parts.len() - 1);
        assert(p =~= parts.take(parts.len() - 1));
        assert forall|i: int|
            #![trigger join_offset(parts, sep, i)]
            0 <= i < parts.len() implies join_offset(parts, sep, i) + parts[i].len() <= whole.len()
            && whole.subrange(
            join_offset(parts, sep, i),
            join_offset(parts, sep, i) + parts[i].len(),
        ) == parts[i] by {
            let k = join_offset(parts, sep, i);
            lemma_join_offset_grows(parts, sep, 0, i);
            if i < parts.len() - 1 {
                lemma_join_offset_prefix(parts, sep, parts.len() - 1, i);
                assert(p[i] == parts[i]);
                assert(join_offset(p, sep, i) == k);
                assert(k + p[i].len() <= jp.len());
                assert(jp.subrange(k, k + p[i].len()) == p[i]);
                assert(whole.subrange(k, k + parts[i].len()) =~= jp.subrange(k, k + p[i].len()));
            } else {
                assert(join_offset(p, sep, i - 1) == join_offset(parts, sep, i - 1)) by {
                    lemma_join_offset_prefix(parts, sep, parts.len() - 1, i - 1);
                }
                assert(k == jp.len() + sep.len());
                assert(whole.subrange(k, k + parts[i].len()) =~= parts.last());
            }
        }
    }
}

/// `s` with each non-overlapping occurrence of `from`, scanned from the left,
/// replaced by `to` (`str::replace`, for a non-empty `from`).
pub open spec fn replace(s: Seq<char>, from: Seq<char>, to: Seq<char>) -> Seq<char>
    decreases s.len(),
{
    if from.len() == 0 || s.len() < from.len() {
        s
    } else if s.take(from.len() as int) == from {
        to + replace(s.skip(from.len() as int), from, to)
    } else {
        seq![s[0]] + replace(s.drop_first(), from, to)
    }
}

/// The views of a sequence of character vectors.
pub open spec fn views(v: Seq<Vec<char>>) -> Seq<Seq<char>> {
    v.map_values(|x: Vec<char>| x@)
}

/// Splits `s` at every occurrence of `c`.
pub fn split_char_exec(s: &[char], c: char) -> (parts: Vec<Vec<char>>)
    ensures
        views(parts@) == split_char(s@, c),
{
    let mut parts: Vec<Vec<char>> = Vec::new();
    let mut cur: Vec<char> = Vec::new();
    let mut i: usize = 0;
    assert(s@.take(0) =~= Seq::<char>::empty());
    assert(views(parts@).push(cur@) =~= split_char(s@.take(0), c));
    while i < s.len()
        invariant
            i <= s.len(),
            views(parts@).push(cur@) == split_char(s@.take(i as int), c),
        decreases s.len() - i,
    {
        let ghost before = split_char(s@.take(i as int), c);
        assert(s@.take(i + 1).drop_last() =~= s@.take(i as int));
        if s[i] == c {
            let done = cur;
            parts.push(done);
            cur = Vec::new();
            assert(views(parts@).push(cur@) =~= before.push(Seq::<char>::empty()));
        } else {
            cur.push(s[i]);
            assert(views(parts@).push(cur@) =~= before.update(
                before.len() - 1,
                before.last().push(s@[i as int]),
            ));
        }
        i += 1;
    }
    assert(s@.take(i as int) =~= s@);
    let last = cur;
    parts.push(last);
    parts
}

/// The lines of `s`.
pub fn lines_exec(s: &[char]) -> (out: Vec<Vec<char>>)
    ensures
        views(out@) == lines(s@),
{
    let parts = split_char_exec(s, '\n');
    proof {
        lemma_split_char_nonempty(s@, '\n');
    }
    let mut out: Vec<Vec<char>> = Vec::new();
    if s.len() == 0 {
        assert(views(out@) =~= lines(s@));
        return out;
    }
    let n = parts.len() - 1;
    let mut k: usize = 0;
    while k < n
        invariant
            k <= n,
            n + 1 == parts@.len(),
            views(parts@) == split_char(s@, '\n'),
            views(out@) == views(parts@).drop_last().map_values(|l: Seq<char>| strip_cr(l)).take(
                k as int,
            ),
        decreases n - k,
    {
        let p = &parts[k];
        let mut line = copy_range(p.as_slice(), 0, p.len());
        assert(line@ =~= p@);
        if line.len() > 0 && line[line.len() - 1] == '\r' {
            line.pop();
        }
        proof {
            assert(p@ == views(parts@)[k as int]);
            assert(line@ == strip_cr(p@));
            assert(views(parts@).drop_last().map_values(|l: Seq<char>| strip_cr(l))[k as int]
                == strip_cr(p@));
        }
        let ghost old_views = views(out@);
        let ghost line_view = line@;
        out.push(line);
        proof {
            let m = views(parts@).drop_last().map_values(|l: Seq<char>| strip_cr(l));
            assert(views(out@) =~= old_views.push(line_view));
            assert(m.take(k + 1) =~= m.take(k as int).push(m[k as int]));
        }
        k += 1;
    }
    assert(views(parts@).drop_last().map_values(|l: Seq<char>| strip_cr(l)).take(n as int)
        =~= views(parts@).drop_last().map_values(|l: Seq<char>| strip_cr(l)));
    if s[s.len() - 1] != '\n' {
        let p = &parts[n];
        let line = copy_range(p.as_slice(), 0, p.len());
        proof {
            assert(p@ == views(parts@)[n as int]);
            assert(line@ =~= p@);
        }
        out.push(line);
        assert(views(out@) =~= lines(s@));
    }
    out
}

/// `parts` joined with `sep`.
pub fn join_exec(parts: &Vec<Vec<char>>, sep: &[char]) -> (out: Vec<char>)
    ensures
        out@ == join(views(parts@), sep@),
{
    let mut out: Vec<char> = Vec::new();
    let mut i: usize = 0;
    assert(views(parts@).take(0) =~= Seq::<Seq<char>>::empty());
    while i < parts.len()
        invariant
            i <= parts.len(),
            out@ == join(views(parts@).take(i as int), sep@),
        decreases parts.len() - i,
    {
        let ghost before = out@;
        assert(views(parts@).take(i + 1).drop_last() =~= views(parts@).take(i as int));
        if i > 0 {
            push_all(&mut out, sep);
        }
        push_all(&mut out, parts[i].as_slice());
        proof {
            assert(parts@[i as int]@ == views(parts@)[i as int]);
            if i == 0 {
                assert(out@ =~= views(parts@).take(1)[0]);
            } else {
                assert(out@ =~= before + sep@ + views(parts@).take(i + 1).last());
            }
        }
        i += 1;
    }
    assert(views(parts@).take(i as int) =~= views(parts@));
    out
}

pub proof fn lemma_replace_short(s: Seq<char>, from: Seq<char>, to: Seq<char>)
    requires
        s.len() < from.len(),
    ensures
        replace(s, from, to) == s,
{
}

/// `s` with the non-overlapping occurrences of `from` replaced by `to`.
pub fn replace_exec(s: &[char], from: &[char], to: &[char]) -> (out: Vec<char>)
    requires
        from@.len() > 0,
    ensures
        out@ == replace(s@, from@, to@),
{
    let mut out: Vec<char> = Vec::new();
    let mut i: usize = 0;
    assert(s@.skip(0) =~= s@);
    while i < s.len()
        invariant
            i <= s.len(),
            from@.len() > 0,
            out@ + replace(s@.skip(i as int), from@, to@) == replace(s@, from@, to@),
        decreases s.len() - i,
    {
        let ghost rest = s@.skip(i as int);
        if matches_at_exec(s, i, from) {
            assert(rest.take(from@.len() as int) =~= s@.subrange(i as int, i + from@.len()));
            assert(rest.skip(from@.len() as int) =~= s@.skip(i + from@.len()));
            push_all(&mut out, to);
            assert(out@ + replace(s@.skip(i + from@.len()), from@, to@) =~= out@ + replace(
                s@.skip(i + from@.len()),
                from@,
                to@,
            ));
            i = i + from.len();
        } else {
            assert(rest.drop_first() =~= s@.skip(i + 1));
            proof {
                if rest.len() < from@.len() {
                    lemma_replace_short(rest, from@, to@);
                    lemma_replace_short(rest.drop_first(), from@, to@);
                } else {
                    assert(rest.take(from@.len() as int) =~= s@.subrange(
                        i as int,
                        i + from@.len(),
                    ));
                }
            }
            assert(seq![s@[i as int]] + s@.skip(i + 1) =~= rest);
            out.push(s[i]);
            i = i + 1;
        }
    }
    assert(s@.skip(i as int) =~= Seq::<char>::empty());
    assert(out@ + Seq::<char>::empty() =~= out@);
    out
}

/// `s` with the non-overlapping occurrences of the literal `from` replaced by `to`.
pub fn replace_str(s: &[char], from: &str, to: &str) -> (out: Vec<char>)
    requires
        from@.len() > 0,
    ensures
        out@ == replace(s@, from@, to@),
{
    let f = chars_of(from);
    let t = chars_of(to);
    replace_exec(s, f.as_slice(), t.as_slice())
}

// ---------------------------------------------------------------------
// Decimal numbers
// ---------------------------------------------------------------------

/// The ASCII digit for `d < 10`.
pub open spec fn digit_char(d: nat) -> char {
    ((d + 48) as u8) as char
}

/// The decimal representation of `n` (`Display` for unsigned integers).
pub open spec fn decimal(n: nat) -> Seq<char>
    decreases n,
{
    if n < 10 {
        seq![digit_char(n)]
    } else {
        decimal(n / 10).push(digit_char(n % 10))
    }
}

/// The decimal representation of `n` (`Display` for signed integers).
pub open spec fn signed_decimal(n: int) -> Seq<char> {
    if n < 0 {
        seq!['-'] + decimal((-n) as nat)
    } else {
        decimal(n as nat)
    }
}

/// Appends the decimal representation of `n`.
pub fn push_decimal(out: &mut Vec<char>, n: u64)
    ensures
        final(out)@ == old(out)@ + decimal(n as nat),
    decreases n,
{
    if n >= 10 {
        push_decimal(out, n / 10);
    }
    let d: u8 = (n % 10) as u8;
    out.push((d + 48) as char);
    assert(old(out)@ + decimal(n as nat) =~= out@);
}

/// Appends the decimal representation of the signed `n`.
pub fn push_signed_decimal(out: &mut Vec<char>, n: i64)
    ensures
        final(out)@ == old(out)@ + signed_decimal(n as int),
{
    if n < 0 {
        out.push('-');
        let m: u64 = ((-(n + 1)) as u64) + 1;
        push_decimal(out, m);
        assert(final(out)@ =~= old(out)@ + signed_decimal(n as int));
    } else {
        push_decimal(out, n as u64);
    }
}

// ---------------------------------------------------------------------
// Prefixes
// ---------------------------------------------------------------------

/// The first `n` characters of `s`, or all of `s` if it is shorter
/// (`s.chars().take(n)`).
pub open spec fn take_chars(s: Seq<char>, n: nat) -> Seq<char> {
    if s.len() <= n {
        s
    } else {
        s.take(n as int)
    }
}

/// The first `n` characters of `s`.
pub fn take_chars_exec(s: &[char], n: usize) -> (v: Vec<char>)
    ensures
        v@ == take_chars(s@, n as nat),
{
    if s.len() <= n {
        copy_range(s, 0, s.len())
    } else {
        copy_range(s, 0, n)
    }
}

/// The characters of `s` whose encoding lies within its first `n` bytes.
pub open spec fn chars_within(s: Seq<char>, n: int) -> Seq<char>
    decreases s.len(),
{
    if s.len() == 0 || char_utf8_len(s[0]) > n {
        Seq::empty()
    } else {
        seq![s[0]] + chars_within(s.drop_first(), n - char_utf8_len(s[0]))
    }
}

pub proof fn lemma_chars_within_step(s: Seq<char>, i: int, n: int)
    requires
        0 <= i < s.len(),
    ensures
        char_utf8_len(s[i]) > n ==> chars_within(s.skip(i), n) == Seq::<char>::empty(),
        char_utf8_len(s[i]) <= n ==> chars_within(s.skip(i), n) == seq![s[i]] + chars_within(
            s.skip(i + 1),
            n - char_utf8_len(s[i]),
        ),
{
    assert(s.skip(i)[0] == s[i]);
    assert(s.skip(i).drop_first() =~= s.skip(i + 1));
}

/// The characters of `s` from index `from` that lie within `n` bytes, and
/// how many bytes they take.
pub fn chars_within_exec(s: &[char], from: usize, n: usize) -> (r: (Vec<char>, usize))
    requires
        from <= s@.len(),
    ensures
        r.0@ == chars_within(s@.skip(from as int), n as int),
        r.1 == utf8_len(r.0@),
        r.1 <= n,
{
    let mut out: Vec<char> = Vec::new();
    let mut used: usize = 0;
    let mut i: usize = from;
    let ghost target = chars_within(s@.skip(from as int), n as int);
    assert(out@ + chars_within(s@.skip(from as int), n as int) =~= target);
    while i < s.len()
        invariant
            from <= i <= s@.len(),
            used <= n,
            used == utf8_len(out@),
            target == chars_within(s@.skip(from as int), n as int),
            out@ + chars_within(s@.skip(i as int), n - used) == target,
        decreases s.len() - i,
    {
        let w = char_utf8_len_exec(s[i]);
        proof {
            lemma_chars_within_step(s@, i as int, n - used);
        }
        if w > n - used {
            assert(out@ + Seq::<char>::empty() =~= out@);
            return (out, used);
        }
        proof {
            lemma_utf8_len_push(out@, s@[i as int]);
            assert(out@.push(s@[i as int]) + chars_within(s@.skip(i + 1), n - used - w) =~= out@
                + (seq![s@[i as int]] + chars_within(s@.skip(i + 1), n - used - w)));
        }
        out.push(s[i]);
        used = used + w;
        i += 1;
    }
    assert(s@.skip(i as int) =~= Seq::<char>::empty());
    assert(out@ + Seq::<char>::empty() =~= out@);
    (out, used)
}

/// `s` with ASCII capitals turned into small letters (`str::to_ascii_lowercase`).
pub open spec fn ascii_lowercase(s: Seq<char>) -> Seq<char> {
    s.map_values(
        |c: char|
            if 'A' <= c <= 'Z' {
                ((c as u32) + 32) as char
            } else {
                c
            },
    )
}

/// The characters of `s` with ASCII capitals turned into small letters.
pub fn ascii_lowercase_exec(s: &[char]) -> (r: Vec<char>)
    ensures
        r@ == ascii_lowercase(s@),
{
    let cs = s;
    let mut r: Vec<char> = Vec::new();
    let mut i: usize = 0;
    while i < cs.len()
        invariant
            i <= cs@.len(),
            r@ == ascii_lowercase(cs@.take(i as int)),
        decreases cs.len() - i,
    {
        let c = cs[i];
        let l = if 'A' <= c && c <= 'Z' {
            ((c as u8) + 32) as char
        } else {
            c
        };
        r.push(l);
        assert(ascii_lowercase(cs@.take(i + 1)) =~= ascii_lowercase(cs@.take(i as int)).push(l));
        i += 1;
    }
    assert(cs@.take(i as int) =~= cs@);
    r
}

/// The index of the last `c` in `s`, if there is one.
pub open spec fn last_index_of(s: Seq<char>, c: char) -> Option<int>
    decreases s.len(),
{
    if s.len() == 0 {
        None
    } else if s.last() == c {
        Some(s.len() - 1)
    } else {
        last_index_of(s.drop_last(), c)
    }
}

/// The characters of `s` after its last `c`, or all of `s` without one.
pub open spec fn after_last(s: Seq<char>, c: char) -> Seq<char> {
    match last_index_of(s, c) {
        Some(i) => s.skip(i + 1),
        None => s,
    }
}

/// The characters of `s` after its last `c`, or all of them.
pub fn after_last_exec(s: &[char], c: char) -> (r: Vec<char>)
    ensures
        r@ == after_last(s@, c),
{
    let mut last: Option<usize> = None;
    let mut i: usize = 0;
    assert(s@.take(0) =~= Seq::<char>::empty());
    while i < s.len()
        invariant
            i <= s@.len(),
            match last {
                Some(k) => k < i && last_index_of(s@.take(i as int), c) == Some(k as int),
                None => last_index_of(s@.take(i as int), c) is None,
            },
        decreases s.len() - i,
    {
        assert(s@.take(i + 1).drop_last() =~= s@.take(i as int));
        if s[i] == c {
            last = Some(i);
        }
        i += 1;
    }
    assert(s@.take(i as int) =~= s@);
    match last {
        Some(k) => {
            let r = copy_range(s, k + 1, s.len());
            assert(r@ =~= s@.skip(k + 1));
            r
        },
        None => {
            let r = copy_range(s, 0, s.len());
            assert(r@ =~= s@);
            r
        },
    }
}

/// The characters of `s` before the first one that is among `stops`.
pub open spec fn take_until_any(s: Seq<char>, stops: Seq<char>) -> Seq<char>
    decreases s.len(),
{
    if s.len() == 0 || stops.contains(s[0]) {
        Seq::empty()
    } else {
        seq![s[0]] + take_until_any(s.drop_first(), stops)
    }
}

/// Whether `c` is one of the characters `v`.
pub fn contains_char(v: &[char], c: char) -> (r: bool)
    ensures
        r == v@.contains(c),
{
    let mut k: usize = 0;
    while k < v.len()
        invariant
            k <= v@.len(),
            forall|j: int| 0 <= j < k ==> v@[j] != c,
        decreases v.len() - k,
    {
        if v[k] == c {
            assert(v@[k as int] == c);
            return true;
        }
        k += 1;
    }
    false
}

/// The characters of `s` before the first one that is in `stops`.
pub fn take_until_any_exec(s: &[char], stops: &str) -> (r: Vec<char>)
    ensures
        r@ == take_until_any(s@, stops@),
{
    let st = chars_of(stops);
    let mut out: Vec<char> = Vec::new();
    let mut i: usize = 0;
    assert(s@.skip(0) =~= s@);
    assert(out@ + take_until_any(s@.skip(0), stops@) =~= take_until_any(s@, stops@));
    while i < s.len()
        invariant
            i <= s@.len(),
            st@ == stops@,
            out@ + take_until_any(s@.skip(i as int), stops@) == take_until_any(s@, stops@),
        decreases s.len() - i,
    {
        assert(s@.skip(i as int)[0] == s@[i as int]);
        assert(s@.skip(i as int).drop_first() =~= s@.skip(i + 1));
        if contains_char(st.as_slice(), s[i]) {
            assert(out@ + Seq::<char>::empty() =~= out@);
            return out;
        }
        assert(out@.push(s@[i as int]) + take_until_any(s@.skip(i + 1), stops@) =~= out@ + (
        seq![s@[i as int]] + take_until_any(s@.skip(i + 1), stops@)));
        out.push(s[i]);
        i += 1;
    }
    assert(s@.skip(i as int) =~= Seq::<char>::empty());
    assert(out@ + Seq::<char>::empty() =~= out@);
    out
}

// ---------------------------------------------------------------------
// Equality and case
// ---------------------------------------------------------------------

/// Whether two strings hold the same characters.
pub fn str_equal(a: &str, b: &str) -> (r: bool)
    ensures
        r == (a@ == b@),
{
    let ac = chars_of(a);
    let bc = chars_of(b);
    if ac.len() != bc.len() {
        return false;
    }
    assert(ac@.subrange(0, bc@.len() as int) =~= ac@);
    matches_at_exec(ac.as_slice(), 0, bc.as_slice())
}

/// Name for what `str::to_lowercase` returns on the string `s`: its
/// lowercase form under Unicode's lowercase mappings, which for a final
/// capital sigma depends on the characters around it.
pub uninterp spec fn lowercase(s: Seq<char>) -> Seq<char>;

/// `str::to_lowercase`: the result is the lowercase mapping named `lowercase`,
/// a function of the string alone.
#[verifier::external_body]
pub(crate) fn lowercase_string(s: &str) -> (r: String)
    ensures
        r@ == lowercase(s@),
{
    s.to_lowercase()
}

/// Whether the characters `s` end with the string `p`.
pub fn ends_with_str(s: &[char], p: &str) -> (r: bool)
    ensures
        r == ends_with(s@, p@),
{
    let pc = chars_of(p);
    if pc.len() > s.len() {
        return false;
    }
    matches_at_exec(s, s.len() - pc.len(), pc.as_slice())
}

/// Whether the characters `v` spell the string `s`.
pub fn chars_equal_str(v: &[char], s: &str) -> (r: bool)
    ensures
        r == (v@ == s@),
{
    let sc = chars_of(s);
    if v.len() != sc.len() {
        return false;
    }
    assert(v@.subrange(0, sc@.len() as int) =~= v@);
    matches_at_exec(v, 0, sc.as_slice())
}

// ---------------------------------------------------------------------
// Filtering
// ---------------------------------------------------------------------

/// Every element of a filtered sequence satisfies the filter's predicate and
/// every property that all elements of the original satisfy.
pub proof fn lemma_filter_keeps<A>(s: Seq<A>, p: spec_fn(A) -> bool, q: spec_fn(A) -> bool)
    requires
        forall|i: int| 0 <= i < s.len() ==> #[trigger] q(s[i]),
    ensures
        forall|i: int|
            0 <= i < s.filter(p).len() ==> p(#[trigger] s.filter(p)[i]) && q(s.filter(p)[i]),
    decreases s.len(),
{
    reveal(Seq::filter);
    if s.len() > 0 {
        assert forall|i: int| 0 <= i < s.drop_last().len() implies #[trigger] q(
            s.drop_last()[i],
        ) by {
            assert(s.drop_last()[i] == s[i]);
        }
        lemma_filter_keeps(s.drop_last(), p, q);
        let sub = s.drop_last().filter(p);
        if p(s.last()) {
            assert(s.filter(p) == sub.push(s.last()));
            assert(q(s[s.len() - 1]));
            assert forall|i: int| 0 <= i < s.filter(p).len() implies p(
                #[trigger] s.filter(p)[i],
            ) && q(s.filter(p)[i]) by {
                if i < sub.len() {
                    assert(s.filter(p)[i] == sub[i]);
                }
            }
        }
    }
}

/// Filtering a sequence whose elements all satisfy the predicate changes nothing.
pub proof fn lemma_filter_all<A>(s: Seq<A>, p: spec_fn(A) -> bool)
    requires
        forall|i: int| 0 <= i < s.len() ==> #[trigger] p(s[i]),
    ensures
        s.filter(p) == s,
    decreases s.len(),
{
    reveal(Seq::filter);
    if s.len() > 0 {
        assert forall|i: int| 0 <= i < s.drop_last().len() implies #[trigger] p(
            s.drop_last()[i],
        ) by {
            assert(s.drop_last()[i] == s[i]);
        }
        lemma_filter_all(s.drop_last(), p);
        assert(p(s[s.len() - 1]));
        assert(s.drop_last().push(s.last()) =~= s);
    }
}

pub proof fn lemma_replace_absent(s: Seq<char>, from: Seq<char>, to: Seq<char>)
    requires
        from.len() > 0,
        !s.contains(from[0]),
    ensures
        replace(s, from, to) == s,
    decreases s.len(),
{
    if s.len() >= from.len() {
        assert(s.take(from.len() as int)[0] == s[0]);
        assert(s.take(from.len() as int) != from);
        assert forall|c: char| s.drop_first().contains(c) implies s.contains(c) by {
            let k = choose|k: int| 0 <= k < s.drop_first().len() && s.drop_first()[k] == c;
            assert(s[k + 1] == c);
        }
        lemma_replace_absent(s.drop_first(), from, to);
        assert(seq![s[0]] + s.drop_first() =~= s);
    }
}

} // verus!
