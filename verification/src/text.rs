use vstd::prelude::*;

verus! {

// ---------------------------------------------------------------------------
// Character classes
// ---------------------------------------------------------------------------

/// Unicode `White_Space`, the class that `str::trim` and `char::is_whitespace` use.
pub open spec fn is_ws(c: char) -> bool {
    let u = c as u32;
    ||| 0x09 <= u <= 0x0d
    ||| u == 0x20
    ||| u == 0x85
    ||| u == 0xa0
    ||| u == 0x1680
    ||| 0x2000 <= u <= 0x200a
    ||| u == 0x2028
    ||| u == 0x2029
    ||| u == 0x202f
    ||| u == 0x205f
    ||| u == 0x3000
}

pub fn char_is_ws(c: char) -> (r: bool)
    ensures
        r == is_ws(c),
{
    let u = c as u32;
    (0x09 <= u && u <= 0x0d) || u == 0x20 || u == 0x85 || u == 0xa0 || u == 0x1680 || (0x2000
        <= u && u <= 0x200a) || u == 0x2028 || u == 0x2029 || u == 0x202f || u == 0x205f || u
        == 0x3000
}

pub open spec fn is_ascii_alnum(c: char) -> bool {
    ||| ('0' <= c && c <= '9')
    ||| ('a' <= c && c <= 'z')
    ||| ('A' <= c && c <= 'Z')
}

/// ASCII lower-casing of one character (`char::to_ascii_lowercase`).
pub open spec fn ascii_lower(c: char) -> char {
    if 'A' <= c && c <= 'Z' {
        ((c as u32) + 32) as char
    } else {
        c
    }
}

pub fn char_ascii_lower(c: char) -> (r: char)
    ensures
        r == ascii_lower(c),
{
    if 'A' <= c && c <= 'Z' {
        let u: u32 = (c as u32) + 32;
        assert(0x61 <= u <= 0x7a);
        // The code point is in the ASCII range, so it is a valid `char`.
        let r = (u as u8) as char;
        assert(r == ((c as u32) + 32) as char) by {
            assert((u as u8) as u32 == u);
        }
        r
    } else {
        c
    }
}

/// `s` with ASCII letters lower-cased (`str::to_ascii_lowercase`).
pub open spec fn ascii_lowercase(s: Seq<char>) -> Seq<char> {
    s.map_values(|c: char| ascii_lower(c))
}

/// Lower-cases the ASCII letters of a text.
pub fn to_ascii_lowercase(s: &str) -> (r: String)
    ensures
        r@ == ascii_lowercase(s@),
{
    let v = chars_of(s);
    let mut out: Vec<char> = Vec::new();
    let mut i: usize = 0;
    while i < v.len()
        invariant
            i <= v@.len(),
            v@ == s@,
            out@ == ascii_lowercase(s@.take(i as int)),
        decreases v@.len() - i,
    {
        out.push(char_ascii_lower(v[i]));
        i += 1;
        assert(out@ =~= ascii_lowercase(s@.take(i as int)));
    }
    assert(s@.take(s@.len() as int) =~= s@);
    string_of(out.as_slice())
}

/// `a.eq_ignore_ascii_case(b)` over characters.
pub open spec fn eq_ignore_ascii_case(a: Seq<char>, b: Seq<char>) -> bool {
    &&& a.len() == b.len()
    &&& forall|i: int| 0 <= i < a.len() ==> ascii_lower(#[trigger] a[i]) == ascii_lower(b[i])
}

/// The characters of each string.
pub open spec fn texts_of(s: Seq<String>) -> Seq<Seq<char>> {
    s.map_values(|x: String| x@)
}

// ---------------------------------------------------------------------------
// Conversions between `str`, `String` and characters
// ---------------------------------------------------------------------------

/// The characters of `s`, in order.
pub fn chars_of(s: &str) -> (v: Vec<char>)
    ensures
        v@ == s@,
{
    let mut v: Vec<char> = Vec::new();
    for c in it: s.chars()
        invariant
            v@ == it.seq().take(it.index() as int),
    {
        v.push(c);
    }
    v
}

/// `String::push`.
#[verifier::external_body]
fn push_char(s: &mut String, c: char)
    ensures
        final(s)@ == old(s)@.push(c),
{
    s.push(c);
}

/// The string made of the characters of `v`.
pub fn string_of(v: &[char]) -> (s: String)
    ensures
        s@ == v@,
{
    let mut s = String::new();
    let mut i: usize = 0;
    while i < v.len()
        invariant
            i <= v@.len(),
            s@ == v@.take(i as int),
        decreases v@.len() - i,
    {
        push_char(&mut s, v[i]);
        i += 1;
        assert(s@ =~= v@.take(i as int));
    }
    assert(v@.take(v@.len() as int) =~= v@);
    s
}

/// The string holding the characters of `s`.
pub fn text(s: &str) -> (r: String)
    ensures
        r@ == s@,
{
    s.to_owned()
}

/// `a + b`.
pub fn concat(a: &str, b: &str) -> (r: String)
    ensures
        r@ == a@ + b@,
{
    let mut v = chars_of(a);
    let w = chars_of(b);
    let mut i: usize = 0;
    while i < w.len()
        invariant
            i <= w@.len(),
            w@ == b@,
            v@ == a@ + b@.take(i as int),
        decreases w@.len() - i,
    {
        v.push(w[i]);
        i += 1;
        assert(v@ =~= a@ + b@.take(i as int));
    }
    assert(b@.take(b@.len() as int) =~= b@);
    string_of(&v)
}

/// Appends the characters of `b` to `v`.
pub fn extend_chars(v: &mut Vec<char>, b: &str)
    ensures
        final(v)@ == old(v)@ + b@,
{
    let w = chars_of(b);
    let mut i: usize = 0;
    while i < w.len()
        invariant
            i <= w@.len(),
            w@ == b@,
            v@ == old(v)@ + b@.take(i as int),
        decreases w@.len() - i,
    {
        v.push(w[i]);
        i += 1;
        assert(v@ =~= old(v)@ + b@.take(i as int));
    }
    assert(b@.take(b@.len() as int) =~= b@);
}

// ---------------------------------------------------------------------------
// Comparisons
// ---------------------------------------------------------------------------

/// Whether two character sequences are equal.
pub fn chars_eq(a: &[char], b: &[char]) -> (r: bool)
    ensures
        r == (a@ == b@),
{
    if a.len() != b.len() {
        return false;
    }
    let mut i: usize = 0;
    while i < a.len()
        invariant
            a@.len() == b@.len(),
            i <= a@.len(),
            forall|k: int| 0 <= k < i ==> a@[k] == b@[k],
        decreases a@.len() - i,
    {
        if a[i] != b[i] {
            return false;
        }
        i += 1;
    }
    assert(a@ =~= b@);
    true
}

/// Whether two strings hold the same characters.
pub fn text_eq(a: &str, b: &str) -> (r: bool)
    ensures
        r == (a@ == b@),
{
    let x = chars_of(a);
    let y = chars_of(b);
    chars_eq(&x, &y)
}

/// Lexicographic order over characters by code point, which is the order
/// that `String`'s `Ord` gives (UTF-8 byte order agrees with code point order).
pub open spec fn lex_le(a: Seq<char>, b: Seq<char>) -> bool
    decreases a.len(),
{
    if a.len() == 0 {
        true
    } else if b.len() == 0 {
        false
    } else if a[0] != b[0] {
        a[0] < b[0]
    } else {
        lex_le(a.drop_first(), b.drop_first())
    }
}

pub proof fn lemma_lex_total(a: Seq<char>, b: Seq<char>)
    ensures
        lex_le(a, b) || lex_le(b, a),
    decreases a.len(),
{
    if a.len() > 0 && b.len() > 0 && a[0] == b[0] {
        lemma_lex_total(a.drop_first(), b.drop_first());
    }
}

pub proof fn lemma_lex_trans(a: Seq<char>, b: Seq<char>, c: Seq<char>)
    requires
        lex_le(a, b),
        lex_le(b, c),
    ensures
        lex_le(a, c),
    decreases a.len(),
{
    if a.len() > 0 && b.len() > 0 && c.len() > 0 && a[0] == b[0] && b[0] == c[0] {
        lemma_lex_trans(a.drop_first(), b.drop_first(), c.drop_first());
    }
}

pub proof fn lemma_lex_antisym(a: Seq<char>, b: Seq<char>)
    requires
        lex_le(a, b),
        lex_le(b, a),
    ensures
        a == b,
    decreases a.len(),
{
    if a.len() > 0 && b.len() > 0 {
        lemma_lex_antisym(a.drop_first(), b.drop_first());
        assert(a =~= seq![a[0]] + a.drop_first());
        assert(b =~= seq![b[0]] + b.drop_first());
    }
    assert(a =~= b);
}

pub proof fn lemma_lex_refl(a: Seq<char>)
    ensures
        lex_le(a, a),
    decreases a.len(),
{
    if a.len() > 0 {
        lemma_lex_refl(a.drop_first());
    }
}

/// Strict lexicographic order.
pub open spec fn text_lt(a: Seq<char>, b: Seq<char>) -> bool {
    lex_le(a, b) && a != b
}

pub proof fn lemma_text_lt_trans(a: Seq<char>, b: Seq<char>, c: Seq<char>)
    requires
        text_lt(a, b),
        text_lt(b, c),
    ensures
        text_lt(a, c),
{
    lemma_lex_trans(a, b, c);
    if a == c {
        lemma_lex_antisym(a, b);
    }
}

pub proof fn lemma_text_lt_total(a: Seq<char>, b: Seq<char>)
    ensures
        text_lt(a, b) || text_lt(b, a) || a == b,
{
    lemma_lex_total(a, b);
}

pub proof fn lemma_text_lt_irrefl_pair(a: Seq<char>, b: Seq<char>)
    requires
        text_lt(a, b),
    ensures
        !text_lt(b, a),
{
    if text_lt(b, a) {
        lemma_lex_antisym(a, b);
    }
}

/// How two texts are ordered.
pub enum TextOrder {
    Before,
    Same,
    After,
}

/// Compares two texts lexicographically.
pub fn order_texts(a: &str, b: &str) -> (r: TextOrder)
    ensures
        (r is Before) == text_lt(a@, b@),
        (r is Same) == (a@ == b@),
        (r is After) == text_lt(b@, a@),
{
    proof {
        lemma_lex_total(a@, b@);
        if lex_le(a@, b@) && lex_le(b@, a@) {
            lemma_lex_antisym(a@, b@);
        }
        if a@ == b@ {
            lemma_lex_refl(a@);
        }
    }
    if text_eq(a, b) {
        TextOrder::Same
    } else if text_le(a, b) {
        TextOrder::Before
    } else {
        TextOrder::After
    }
}

/// `a <= b` in the order of `lex_le`.
pub fn text_le(a: &str, b: &str) -> (r: bool)
    ensures
        r == lex_le(a@, b@),
{
    let x = chars_of(a);
    let y = chars_of(b);
    let mut i: usize = 0;
    assert(a@.skip(0) =~= a@);
    assert(b@.skip(0) =~= b@);
    while i < x.len() && i < y.len()
        invariant
            x@ == a@,
            y@ == b@,
            i <= x@.len(),
            i <= y@.len(),
            forall|k: int| 0 <= k < i ==> x@[k] == y@[k],
            lex_le(a@, b@) == lex_le(a@.skip(i as int), b@.skip(i as int)),
        decreases x@.len() - i,
    {
        if x[i] != y[i] {
            assert(a@.skip(i as int)[0] == x@[i as int]);
            assert(b@.skip(i as int)[0] == y@[i as int]);
            return x[i] < y[i];
        }
        assert(a@.skip(i as int).drop_first() =~= a@.skip(i + 1));
        assert(b@.skip(i as int).drop_first() =~= b@.skip(i + 1));
        i += 1;
    }
    i == x.len()
}

// ---------------------------------------------------------------------------
// Searching
// ---------------------------------------------------------------------------

pub open spec fn seq_starts_with(s: Seq<char>, p: Seq<char>) -> bool {
    p.len() <= s.len() && s.take(p.len() as int) == p
}

pub open spec fn seq_ends_with(s: Seq<char>, p: Seq<char>) -> bool {
    p.len() <= s.len() && s.skip(s.len() - p.len()) == p
}

/// `p` occurs in `s` at position `i`.
pub open spec fn occurs_at(s: Seq<char>, p: Seq<char>, i: int) -> bool {
    0 <= i && i + p.len() <= s.len() && s.subrange(i, i + p.len()) == p
}

pub open spec fn seq_contains_text(s: Seq<char>, p: Seq<char>) -> bool {
    exists|i: int| occurs_at(s, p, i)
}

pub fn starts_with(s: &str, p: &str) -> (r: bool)
    ensures
        r == seq_starts_with(s@, p@),
{
    let x = chars_of(s);
    let y = chars_of(p);
    if y.len() > x.len() {
        return false;
    }
    let mut i: usize = 0;
    while i < y.len()
        invariant
            x@ == s@,
            y@ == p@,
            y@.len() <= x@.len(),
            i <= y@.len(),
            forall|k: int| 0 <= k < i ==> x@[k] == y@[k],
        decreases y@.len() - i,
    {
        if x[i] != y[i] {
            assert(s@.take(p@.len() as int)[i as int] != p@[i as int]);
            return false;
        }
        i += 1;
    }
    assert(s@.take(p@.len() as int) =~= p@);
    true
}

pub fn ends_with(s: &str, p: &str) -> (r: bool)
    ensures
        r == seq_ends_with(s@, p@),
{
    let x = chars_of(s);
    let y = chars_of(p);
    if y.len() > x.len() {
        return false;
    }
    let n = x.len();
    let off = n - y.len();
    let mut i: usize = 0;
    while i < y.len()
        invariant
            n == x@.len(),
            x@ == s@,
            y@ == p@,
            y@.len() <= x@.len(),
            off == x@.len() - y@.len(),
            i <= y@.len(),
            forall|k: int| 0 <= k < i ==> x@[off + k] == y@[k],
        decreases y@.len() - i,
    {
        assert(off + i < x@.len());
        if x[off + i] != y[i] {
            assert(s@.skip(s@.len() - p@.len())[i as int] != p@[i as int]);
            return false;
        }
        i += 1;
    }
    assert(s@.skip(s@.len() - p@.len()) =~= p@);
    true
}

pub fn contains_char(s: &str, c: char) -> (r: bool)
    ensures
        r == s@.contains(c),
{
    let x = chars_of(s);
    let mut i: usize = 0;
    while i < x.len()
        invariant
            x@ == s@,
            i <= x@.len(),
            forall|k: int| 0 <= k < i ==> x@[k] != c,
        decreases x@.len() - i,
    {
        if x[i] == c {
            return true;
        }
        i += 1;
    }
    false
}

/// Whether `p` occurs in `v` at `i`.
fn chars_occur_at(v: &Vec<char>, p: &Vec<char>, i: usize) -> (r: bool)
    ensures
        r == occurs_at(v@, p@, i as int),
{
    if i > v.len() || p.len() > v.len() - i {
        return false;
    }
    let n = v.len();
    let mut k: usize = 0;
    while k < p.len()
        invariant
            n == v@.len(),
            i + p@.len() <= v@.len(),
            k <= p@.len(),
            forall|j: int| 0 <= j < k ==> v@[i + j] == p@[j],
        decreases p@.len() - k,
    {
        assert(i + k < v@.len());
        if v[i + k] != p[k] {
            assert(v@.subrange(i as int, i + p@.len())[k as int] != p@[k as int]);
            return false;
        }
        k += 1;
    }
    assert(v@.subrange(i as int, i + p@.len()) =~= p@);
    true
}

/// `s.contains(p)` for a text pattern.
pub fn contains_text(s: &str, p: &str) -> (r: bool)
    ensures
        r == seq_contains_text(s@, p@),
{
    let x = chars_of(s);
    let y = chars_of(p);
    let mut i: usize = 0;
    while i < x.len()
        invariant
            x@ == s@,
            y@ == p@,
            i <= x@.len(),
            forall|k: int| 0 <= k < i ==> !occurs_at(s@, p@, k),
        decreases x@.len() - i,
    {
        if chars_occur_at(&x, &y, i) {
            return true;
        }
        i += 1;
    }
    chars_occur_at(&x, &y, i)
}

// ---------------------------------------------------------------------------
// Trimming
// ---------------------------------------------------------------------------

/// Number of leading white-space characters.
pub open spec fn lead_ws(s: Seq<char>) -> nat
    decreases s.len(),
{
    if s.len() > 0 && is_ws(s[0]) {
        1 + lead_ws(s.drop_first())
    } else {
        0
    }
}

/// Number of trailing white-space characters.
pub open spec fn trail_ws(s: Seq<char>) -> nat
    decreases s.len(),
{
    if s.len() > 0 && is_ws(s.last()) {
        1 + trail_ws(s.drop_last())
    } else {
        0
    }
}

pub open spec fn trim_start_seq(s: Seq<char>) -> Seq<char> {
    s.skip(lead_ws(s) as int)
}

pub open spec fn trim_end_seq(s: Seq<char>) -> Seq<char> {
    s.take(s.len() - trail_ws(s))
}

/// `str::trim`.
pub open spec fn trim_seq(s: Seq<char>) -> Seq<char> {
    trim_end_seq(trim_start_seq(s))
}

proof fn lemma_lead_ws_bound(s: Seq<char>)
    ensures
        lead_ws(s) <= s.len(),
    decreases s.len(),
{
    if s.len() > 0 && is_ws(s[0]) {
        lemma_lead_ws_bound(s.drop_first());
    }
}

proof fn lemma_trail_ws_bound(s: Seq<char>)
    ensures
        trail_ws(s) <= s.len(),
    decreases s.len(),
{
    if s.len() > 0 && is_ws(s.last()) {
        lemma_trail_ws_bound(s.drop_last());
    }
}

fn lead_ws_count(v: &[char]) -> (n: usize)
    ensures
        n == lead_ws(v@),
        n <= v@.len(),
{
    let mut i: usize = 0;
    assert(v@.skip(0) =~= v@);
    while i < v.len() && char_is_ws(v[i])
        invariant
            i <= v@.len(),
            lead_ws(v@) == i + lead_ws(v@.skip(i as int)),
        decreases v@.len() - i,
    {
        assert(v@.skip(i as int).drop_first() =~= v@.skip(i + 1));
        i += 1;
    }
    i
}

fn trail_ws_count(v: &[char]) -> (n: usize)
    ensures
        n == trail_ws(v@),
        n <= v@.len(),
{
    let mut i: usize = 0;
    assert(v@.take(v@.len() as int) =~= v@);
    while i < v.len() && char_is_ws(v[v.len() - 1 - i])
        invariant
            i <= v@.len(),
            trail_ws(v@) == i + trail_ws(v@.take(v@.len() - i)),
        decreases v@.len() - i,
    {
        assert(v@.take(v@.len() - i).drop_last() =~= v@.take(v@.len() - (i + 1)));
        i += 1;
    }
    i
}

/// The characters of `v` from `lo` to `hi`.
pub fn slice_chars(v: &[char], lo: usize, hi: usize) -> (r: Vec<char>)
    requires
        lo <= hi <= v@.len(),
    ensures
        r@ == v@.subrange(lo as int, hi as int),
{
    let mut r: Vec<char> = Vec::new();
    let mut i = lo;
    while i < hi
        invariant
            lo <= i <= hi <= v@.len(),
            r@ == v@.subrange(lo as int, i as int),
        decreases hi - i,
    {
        r.push(v[i]);
        i += 1;
        assert(r@ =~= v@.subrange(lo as int, i as int));
    }
    r
}

/// `s.trim()` over characters.
pub fn trim_chars(v: &[char]) -> (r: Vec<char>)
    ensures
        r@ == trim_seq(v@),
{
    let a = lead_ws_count(v);
    let w = slice_chars(v, a, v.len());
    assert(w@ =~= trim_start_seq(v@));
    let b = trail_ws_count(&w);
    let r = slice_chars(&w, 0, w.len() - b);
    assert(r@ =~= trim_end_seq(w@));
    r
}

/// `s.trim()`.
pub fn trim(s: &str) -> (r: String)
    ensures
        r@ == trim_seq(s@),
{
    let v = chars_of(s);
    let t = trim_chars(&v);
    string_of(&t)
}

// ---------------------------------------------------------------------------
// Splitting on a separator, dropping empty pieces
// ---------------------------------------------------------------------------

/// The non-empty pieces of `s` between occurrences of `sep`
/// (`s.split(sep).filter(|p| !p.is_empty())`).
pub open spec fn pieces(s: Seq<char>, sep: char) -> Seq<Seq<char>>
    decreases s.len(),
{
    if s.len() == 0 {
        Seq::empty()
    } else {
        let rest = pieces(s.drop_last(), sep);
        let c = s.last();
        if c == sep {
            rest
        } else if s.len() >= 2 && s[s.len() - 2] != sep {
            rest.update(rest.len() - 1, rest.last().push(c))
        } else {
            rest.push(seq![c])
        }
    }
}

/// A text that does not end in the separator ends its last piece.
pub proof fn lemma_pieces_nonempty_tail(s: Seq<char>, sep: char)
    requires
        s.len() > 0,
        s.last() != sep,
    ensures
        pieces(s, sep).len() > 0,
    decreases s.len(),
{
    if s.len() >= 2 && s[s.len() - 2] != sep {
        lemma_pieces_nonempty_tail(s.drop_last(), sep);
    }
}

/// `s.split(sep).filter(|p| !p.is_empty())`, collected.
pub fn split_pieces(s: &str, sep: char) -> (r: Vec<String>)
    ensures
        r@.map_values(|x: String| x@) == pieces(s@, sep),
{
    let v = chars_of(s);
    let mut out: Vec<Vec<char>> = Vec::new();
    let mut i: usize = 0;
    while i < v.len()
        invariant
            v@ == s@,
            i <= v@.len(),
            out@.map_values(|x: Vec<char>| x@) == pieces(s@.take(i as int), sep),
        decreases v@.len() - i,
    {
        let c = v[i];
        let ghost before = out@.map_values(|x: Vec<char>| x@);
        proof {
            assert(s@.take(i + 1).drop_last() =~= s@.take(i as int));
            assert(s@.take(i + 1).last() == c);
        }
        if c == sep {
        } else if i >= 1 && v[i - 1] != sep {
            proof {
                assert(s@.take(i as int).last() == v@[i - 1]);
                lemma_pieces_nonempty_tail(s@.take(i as int), sep);
                assert(s@.take(i + 1)[i - 1] == v@[i - 1]);
            }
            let last = out.len() - 1;
            let mut piece = out.pop().unwrap();
            piece.push(c);
            out.push(piece);
            proof {
                assert(out@.map_values(|x: Vec<char>| x@) =~= before.update(
                    before.len() - 1,
                    before.last().push(c),
                ));
            }
        } else {
            let mut piece: Vec<char> = Vec::new();
            piece.push(c);
            out.push(piece);
            proof {
                if i >= 1 {
                    assert(s@.take(i + 1)[i - 1] == v@[i - 1]);
                }
                assert(out@.map_values(|x: Vec<char>| x@) =~= before.push(seq![c]));
            }
        }
        i += 1;
    }
    proof {
        assert(s@.take(v@.len() as int) =~= s@);
    }
    let mut r: Vec<String> = Vec::new();
    let mut k: usize = 0;
    while k < out.len()
        invariant
            k <= out@.len(),
            r@.len() == k,
            forall|j: int| 0 <= j < k ==> (#[trigger] r@[j])@ == out@[j]@,
        decreases out@.len() - k,
    {
        let piece = string_of(out[k].as_slice());
        r.push(piece);
        k += 1;
    }
    assert(r@.map_values(|x: String| x@) =~= out@.map_values(|x: Vec<char>| x@));
    r
}

/// The maximal runs of characters that are not white space (`split_whitespace`).
pub open spec fn words(s: Seq<char>) -> Seq<Seq<char>>
    decreases s.len(),
{
    if s.len() == 0 {
        Seq::empty()
    } else {
        let rest = words(s.drop_last());
        let c = s.last();
        if is_ws(c) {
            rest
        } else if s.len() >= 2 && !is_ws(s[s.len() - 2]) {
            rest.update(rest.len() - 1, rest.last().push(c))
        } else {
            rest.push(seq![c])
        }
    }
}

/// A text that does not end in white space ends its last word.
pub proof fn lemma_words_nonempty_tail(s: Seq<char>)
    requires
        s.len() > 0,
        !is_ws(s.last()),
    ensures
        words(s).len() > 0,
    decreases s.len(),
{
    if s.len() >= 2 && !is_ws(s[s.len() - 2]) {
        lemma_words_nonempty_tail(s.drop_last());
    }
}

/// `s.split_whitespace()`, collected.
pub fn split_words(s: &str) -> (r: Vec<String>)
    ensures
        r@.map_values(|x: String| x@) == words(s@),
{
    let v = chars_of(s);
    let mut out: Vec<Vec<char>> = Vec::new();
    let mut i: usize = 0;
    while i < v.len()
        invariant
            v@ == s@,
            i <= v@.len(),
            out@.map_values(|x: Vec<char>| x@) == words(s@.take(i as int)),
        decreases v@.len() - i,
    {
        let c = v[i];
        let ghost before = out@.map_values(|x: Vec<char>| x@);
        proof {
            assert(s@.take(i + 1).drop_last() =~= s@.take(i as int));
            assert(s@.take(i + 1).last() == c);
        }
        if char_is_ws(c) {
        } else if i >= 1 && !char_is_ws(v[i - 1]) {
            proof {
                assert(s@.take(i as int).last() == v@[i - 1]);
                lemma_words_nonempty_tail(s@.take(i as int));
                assert(s@.take(i + 1)[i - 1] == v@[i - 1]);
            }
            let last = out.len() - 1;
            let mut piece = out.pop().unwrap();
            piece.push(c);
            out.push(piece);
            proof {
                assert(out@.map_values(|x: Vec<char>| x@) =~= before.update(
                    before.len() - 1,
                    before.last().push(c),
                ));
            }
        } else {
            let mut piece: Vec<char> = Vec::new();
            piece.push(c);
            out.push(piece);
            proof {
                if i >= 1 {
                    assert(s@.take(i + 1)[i - 1] == v@[i - 1]);
                }
                assert(out@.map_values(|x: Vec<char>| x@) =~= before.push(seq![c]));
            }
        }
        i += 1;
    }
    proof {
        assert(s@.take(v@.len() as int) =~= s@);
    }
    let mut r: Vec<String> = Vec::new();
    let mut k: usize = 0;
    while k < out.len()
        invariant
            k <= out@.len(),
            r@.len() == k,
            forall|j: int| 0 <= j < k ==> (#[trigger] r@[j])@ == out@[j]@,
        decreases out@.len() - k,
    {
        let piece = string_of(out[k].as_slice());
        r.push(piece);
        k += 1;
    }
    assert(r@.map_values(|x: String| x@) =~= out@.map_values(|x: Vec<char>| x@));
    r
}

// ---------------------------------------------------------------------------
// Joining
// ---------------------------------------------------------------------------

/// The texts of `parts` with `sep` between neighbours (`[T]::join`).
pub open spec fn join_texts(parts: Seq<Seq<char>>, sep: Seq<char>) -> Seq<char>
    decreases parts.len(),
{
    if parts.len() == 0 {
        Seq::empty()
    } else if parts.len() == 1 {
        parts[0]
    } else {
        join_texts(parts.drop_last(), sep) + sep + parts.last()
    }
}

/// `parts.join(sep)`.
pub fn join(parts: &Vec<String>, sep: &str) -> (r: String)
    ensures
        r@ == join_texts(parts@.map_values(|x: String| x@), sep@),
{
    let ghost views = parts@.map_values(|x: String| x@);
    let mut v: Vec<char> = Vec::new();
    let mut i: usize = 0;
    while i < parts.len()
        invariant
            i <= parts@.len(),
            views == parts@.map_values(|x: String| x@),
            v@ == join_texts(views.take(i as int), sep@),
        decreases parts@.len() - i,
    {
        assert(views.take(i + 1).drop_last() =~= views.take(i as int));
        if i > 0 {
            extend_chars(&mut v, sep);
        }
        extend_chars(&mut v, parts[i].as_str());
        i += 1;
        proof {
            if i == 1 {
                assert(v@ =~= join_texts(views.take(i as int), sep@));
            }
        }
    }
    assert(views.take(parts@.len() as int) =~= views);
    string_of(&v)
}

// ---------------------------------------------------------------------------
// Numbers
// ---------------------------------------------------------------------------

pub open spec fn digit_char(d: nat) -> char
    recommends
        d < 10,
{
    ((d + 48) as u32) as char
}

/// The decimal digits of `n`, as the `Display` of unsigned integers writes them.
pub open spec fn decimal(n: nat) -> Seq<char>
    decreases n,
{
    if n < 10 {
        seq![digit_char(n)]
    } else {
        decimal(n / 10).push(digit_char(n % 10))
    }
}

fn digit(d: u128) -> (c: char)
    requires
        d < 10,
    ensures
        c == digit_char(d as nat),
{
    let b: u8 = (d as u8) + 48;
    let c = b as char;
    assert(c == digit_char(d as nat)) by {
        assert((b as u32) == (d + 48) as u32);
    }
    c
}

/// The decimal text of `n`.
pub fn decimal_text(n: u128) -> (r: Vec<char>)
    ensures
        r@ == decimal(n as nat),
    decreases n,
{
    if n < 10 {
        let mut v: Vec<char> = Vec::new();
        v.push(digit(n));
        assert(v@ =~= decimal(n as nat));
        v
    } else {
        let mut v = decimal_text(n / 10);
        v.push(digit(n % 10));
        v
    }
}

// ---------------------------------------------------------------------------
// Lines
// ---------------------------------------------------------------------------

/// The pieces of `s` between occurrences of `sep`, empty ones included
/// (`s.split(sep)`).
pub open spec fn split_at(s: Seq<char>, sep: char) -> Seq<Seq<char>>
    decreases s.len(),
{
    if s.len() == 0 {
        seq![Seq::empty()]
    } else {
        let rest = split_at(s.drop_last(), sep);
        if s.last() == sep {
            rest.push(Seq::empty())
        } else {
            rest.update(rest.len() - 1, rest.last().push(s.last()))
        }
    }
}

pub proof fn lemma_split_at_nonempty(s: Seq<char>, sep: char)
    ensures
        split_at(s, sep).len() >= 1,
    decreases s.len(),
{
    if s.len() > 0 {
        lemma_split_at_nonempty(s.drop_last(), sep);
    }
}

/// A line without the carriage return that ended it.
pub open spec fn strip_cr(l: Seq<char>) -> Seq<char> {
    if l.len() > 0 && l.last() == '\r' {
        l.drop_last()
    } else {
        l
    }
}

/// The lines of a text (`str::lines`): the pieces between line feeds, a
/// carriage return before a line feed dropped, and no line after a final
/// line feed.
pub open spec fn text_lines(s: Seq<char>) -> Seq<Seq<char>> {
    let p = split_at(s, '\n');
    let ended = p.drop_last().map_values(|l: Seq<char>| strip_cr(l));
    if p.last().len() == 0 {
        ended
    } else {
        ended.push(p.last())
    }
}

/// The lines of a text, collected (`s.lines()`).
pub fn lines_of(s: &str) -> (r: Vec<String>)
    ensures
        texts_of(r@) == text_lines(s@),
{
    let v = chars_of(s);
    let mut done: Vec<String> = Vec::new();
    let mut cur: Vec<char> = Vec::new();
    let mut i: usize = 0;
    while i < v.len()
        invariant
            v@ == s@,
            i <= v@.len(),
            texts_of(done@).push(cur@) == split_at(s@.take(i as int), '\n'),
        decreases v@.len() - i,
    {
        let c = v[i];
        let ghost before = texts_of(done@).push(cur@);
        proof {
            assert(s@.take(i + 1).drop_last() =~= s@.take(i as int));
            assert(s@.take(i + 1).last() == c);
        }
        if c == '\n' {
            let line = string_of(cur.as_slice());
            done.push(line);
            cur = Vec::new();
            proof {
                assert(texts_of(done@).push(cur@) =~= before.push(Seq::empty()));
            }
        } else {
            cur.push(c);
            proof {
                assert(texts_of(done@).push(cur@) =~= before.update(
                    before.len() - 1,
                    before.last().push(c),
                ));
            }
        }
        i += 1;
    }
    proof {
        assert(s@.take(v@.len() as int) =~= s@);
    }
    let ghost p = split_at(s@, '\n');
    let ghost pre = texts_of(done@);
    assert(p.drop_last() =~= pre);
    assert(p.last() == cur@);
    let mut out: Vec<String> = Vec::new();
    let mut k: usize = 0;
    while k < done.len()
        invariant
            k <= done@.len(),
            pre == texts_of(done@),
            texts_of(out@) == pre.take(k as int).map_values(|l: Seq<char>| strip_cr(l)),
        decreases done@.len() - k,
    {
        let line = chars_of(done[k].as_str());
        let ghost before = texts_of(out@);
        let n = line.len();
        let piece = if n > 0 && line[n - 1] == '\r' {
            string_of(slice_chars(line.as_slice(), 0, n - 1).as_slice())
        } else {
            string_of(line.as_slice())
        };
        proof {
            assert(pre[k as int] == done@[k as int]@);
            if n > 0 && line@[n - 1] == '\r' {
                assert(line@.subrange(0, n - 1) =~= line@.drop_last());
            }
        }
        out.push(piece);
        proof {
            assert(pre.take(k + 1) =~= pre.take(k as int).push(pre[k as int]));
            assert(texts_of(out@) =~= before.push(strip_cr(pre[k as int])));
        }
        k += 1;
    }
    assert(pre.take(done@.len() as int) =~= pre);
    if cur.len() > 0 {
        out.push(string_of(cur.as_slice()));
        proof {
            assert(texts_of(out@) =~= text_lines(s@));
        }
    } else {
        proof {
            assert(texts_of(out@) =~= text_lines(s@));
        }
    }
    out
}

} // verus!
