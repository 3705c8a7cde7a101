//! Character-level text helpers shared by the console, table and control layers.
//!
//! Strings are reasoned about through their character sequences (`s@`). Widths
//! measured in bytes follow the UTF-8 encoding of those characters, and
//! padding counts characters, as Rust's formatting machinery does.

use vstd::prelude::*;

verus! {

// ---------------------------------------------------------------------------
// Specifications
// ---------------------------------------------------------------------------

/// Unicode `White_Space`, the set that `char::is_whitespace` tests.
pub open spec fn is_ws(c: char) -> bool {
    let v = c as u32;
    ||| 0x09 <= v <= 0x0D
    ||| v == 0x20
    ||| v == 0x85
    ||| v == 0xA0
    ||| v == 0x1680
    ||| 0x2000 <= v <= 0x200A
    ||| v == 0x2028
    ||| v == 0x2029
    ||| v == 0x202F
    ||| v == 0x205F
    ||| v == 0x3000
}

/// Number of bytes in the UTF-8 encoding of one character.
pub open spec fn utf8_width(c: char) -> nat {
    let v = c as u32;
    if v <= 0x7F {
        1
    } else if v <= 0x7FF {
        2
    } else if v <= 0xFFFF {
        3
    } else {
        4
    }
}

/// Number of bytes in the UTF-8 encoding of a character sequence.
pub open spec fn byte_len(s: Seq<char>) -> nat
    decreases s.len(),
{
    if s.len() == 0 {
        0
    } else {
        utf8_width(s[0]) + byte_len(s.drop_first())
    }
}

/// A run of `n` spaces.
pub open spec fn spaces(n: nat) -> Seq<char> {
    Seq::new(n, |i: int| ' ')
}

/// A run of `n` copies of a piece of text.
pub open spec fn repeat_seq(piece: Seq<char>, n: nat) -> Seq<char>
    decreases n,
{
    if n == 0 {
        seq![]
    } else {
        repeat_seq(piece, (n - 1) as nat) + piece
    }
}

/// Left-aligned field of the given width (`{:<width$}`): padding counts characters.
pub open spec fn pad_right(s: Seq<char>, width: nat) -> Seq<char> {
    if s.len() >= width {
        s
    } else {
        s + spaces((width - s.len()) as nat)
    }
}

/// Right-aligned field of the given width (`{:>width$}`).
pub open spec fn pad_left(s: Seq<char>, width: nat) -> Seq<char> {
    if s.len() >= width {
        s
    } else {
        spaces((width - s.len()) as nat) + s
    }
}

/// Pieces joined with a separator between neighbours.
pub open spec fn join(pieces: Seq<Seq<char>>, sep: Seq<char>) -> Seq<char>
    decreases pieces.len(),
{
    if pieces.len() == 0 {
        seq![]
    } else if pieces.len() == 1 {
        pieces[0]
    } else {
        join(pieces.drop_last(), sep) + sep + pieces.last()
    }
}

/// Views of a vector of strings.
pub open spec fn views(v: Seq<String>) -> Seq<Seq<char>> {
    v.map_values(|s: String| s@)
}

/// Number of leading whitespace characters.
pub open spec fn leading_ws(s: Seq<char>) -> nat
    decreases s.len(),
{
    if s.len() == 0 || !is_ws(s[0]) {
        0
    } else {
        1 + leading_ws(s.drop_first())
    }
}

/// Number of trailing whitespace characters.
pub open spec fn trailing_ws(s: Seq<char>) -> nat
    decreases s.len(),
{
    if s.len() == 0 || !is_ws(s.last()) {
        0
    } else {
        1 + trailing_ws(s.drop_last())
    }
}

/// `str::trim_start`.
pub open spec fn trim_start(s: Seq<char>) -> Seq<char> {
    s.subrange(leading_ws(s) as int, s.len() as int)
}

/// `str::trim_end`.
pub open spec fn trim_end(s: Seq<char>) -> Seq<char> {
    s.subrange(0, s.len() - trailing_ws(s))
}

/// `str::trim`.
pub open spec fn trim(s: Seq<char>) -> Seq<char> {
    trim_end(trim_start(s))
}

/// Whitespace-separated words (`str::split_whitespace`), scanning left to right.
pub open spec fn words(s: Seq<char>) -> Seq<Seq<char>>
    decreases s.len(),
{
    if s.len() == 0 {
        seq![]
    } else {
        let prev = words(s.drop_last());
        let c = s.last();
        if is_ws(c) {
            prev
        } else if s.len() >= 2 && !is_ws(s[s.len() - 2]) {
            prev.drop_last().push(prev.last().push(c))
        } else {
            prev.push(seq![c])
        }
    }
}

/// `s` starts with `prefix`.
pub open spec fn starts_with(s: Seq<char>, prefix: Seq<char>) -> bool {
    prefix.len() <= s.len() && s.subrange(0, prefix.len() as int) == prefix
}

/// `s` ends with `suffix`.
pub open spec fn ends_with(s: Seq<char>, suffix: Seq<char>) -> bool {
    suffix.len() <= s.len() && s.subrange(s.len() - suffix.len(), s.len() as int) == suffix
}

/// Decimal rendering of a natural number, as `u64::to_string` writes it.
pub open spec fn decimal(n: nat) -> Seq<char>
    decreases n,
{
    if n < 10 {
        seq![digit_char(n)]
    } else {
        decimal(n / 10).push(digit_char(n % 10))
    }
}

/// The ASCII digit for a value below ten.
pub open spec fn digit_char(d: nat) -> char {
    if d == 0 {
        '0'
    } else if d == 1 {
        '1'
    } else if d == 2 {
        '2'
    } else if d == 3 {
        '3'
    } else if d == 4 {
        '4'
    } else if d == 5 {
        '5'
    } else if d == 6 {
        '6'
    } else if d == 7 {
        '7'
    } else if d == 8 {
        '8'
    } else {
        '9'
    }
}

/// Strict lexicographic order on character sequences (by code point, as `str` orders).
pub open spec fn seq_lt(a: Seq<char>, b: Seq<char>) -> bool
    decreases a.len(),
{
    if a.len() == 0 {
        b.len() > 0
    } else if b.len() == 0 {
        false
    } else if a[0] != b[0] {
        (a[0] as u32) < (b[0] as u32)
    } else {
        seq_lt(a.drop_first(), b.drop_first())
    }
}

// ---------------------------------------------------------------------------
// Lemmas
// ---------------------------------------------------------------------------

/// `byte_len` of a single character.
pub proof fn lemma_byte_len_one(c: char)
    ensures
        byte_len(seq![c]) == utf8_width(c),
{
    assert(seq![c].drop_first() =~= Seq::<char>::empty());
    assert(byte_len(seq![c].drop_first()) == 0);
}

/// `byte_len` is additive over concatenation.
pub proof fn lemma_byte_len_concat(a: Seq<char>, b: Seq<char>)
    ensures
        byte_len(a + b) == byte_len(a) + byte_len(b),
    decreases a.len(),
{
    if a.len() > 0 {
        assert((a + b).drop_first() =~= a.drop_first() + b);
        lemma_byte_len_concat(a.drop_first(), b);
    } else {
        assert(a + b =~= b);
    }
}

/// A sequence has at least as many bytes as characters.
pub proof fn lemma_byte_len_ge_len(s: Seq<char>)
    ensures
        byte_len(s) >= s.len(),
    decreases s.len(),
{
    if s.len() > 0 {
        lemma_byte_len_ge_len(s.drop_first());
    }
}

/// Viewing a vector with one more string appends that string's view.
pub proof fn lemma_views_push(v: Seq<String>, s: String)
    ensures
        views(v.push(s)) == views(v).push(s@),
{
    assert(views(v.push(s)) =~= views(v).push(s@));
}

/// Joining one more piece appends the separator and the piece.
pub proof fn lemma_join_push(pieces: Seq<Seq<char>>, sep: Seq<char>, p: Seq<char>)
    ensures
        join(pieces.push(p), sep) == if pieces.len() == 0 {
            p
        } else {
            join(pieces, sep) + sep + p
        },
{
    assert(pieces.push(p).drop_last() =~= pieces);
}

/// The decimal rendering of a value has at least one digit.
pub proof fn lemma_decimal_nonempty(n: nat)
    ensures
        decimal(n).len() >= 1,
    decreases n,
{
    if n >= 10 {
        lemma_decimal_nonempty(n / 10);
    }
}


/// `leading_ws` counts exactly the whitespace run at the front.
pub proof fn lemma_leading_ws(s: Seq<char>, i: int)
    requires
        0 <= i <= s.len(),
        forall|j: int| 0 <= j < i ==> is_ws(#[trigger] s[j]),
        i == s.len() || !is_ws(s[i]),
    ensures
        leading_ws(s) == i,
    decreases i,
{
    if i > 0 {
        lemma_leading_ws(s.drop_first(), i - 1);
    }
}

/// `trailing_ws` counts exactly the whitespace run at the back.
pub proof fn lemma_trailing_ws(s: Seq<char>, k: int)
    requires
        0 <= k <= s.len(),
        forall|j: int| s.len() - k <= j < s.len() ==> is_ws(#[trigger] s[j]),
        k == s.len() || !is_ws(s[s.len() - 1 - k]),
    ensures
        trailing_ws(s) == k,
    decreases k,
{
    if k > 0 {
        let t = s.drop_last();
        assert forall|j: int| t.len() - (k - 1) <= j < t.len() implies is_ws(#[trigger] t[j]) by {
            assert(t[j] == s[j]);
        }
        lemma_trailing_ws(t, k - 1);
    }
}


/// No sequence is below itself.
pub proof fn lemma_seq_lt_irreflexive(a: Seq<char>)
    ensures
        !seq_lt(a, a),
    decreases a.len(),
{
    if a.len() > 0 {
        lemma_seq_lt_irreflexive(a.drop_first());
    }
}

/// The order is transitive.
pub proof fn lemma_seq_lt_transitive(a: Seq<char>, b: Seq<char>, c: Seq<char>)
    requires
        seq_lt(a, b),
        seq_lt(b, c),
    ensures
        seq_lt(a, c),
    decreases a.len(),
{
    if a.len() > 0 && b.len() > 0 && c.len() > 0 {
        if a[0] == b[0] && b[0] == c[0] {
            lemma_seq_lt_transitive(a.drop_first(), b.drop_first(), c.drop_first());
        }
    }
}

/// Two different sequences are ordered one way or the other.
pub proof fn lemma_seq_lt_total(a: Seq<char>, b: Seq<char>)
    requires
        a != b,
    ensures
        seq_lt(a, b) || seq_lt(b, a),
    decreases a.len(),
{
    if a.len() > 0 && b.len() > 0 && a[0] == b[0] {
        if a.drop_first() == b.drop_first() {
            assert(a =~= seq![a[0]] + a.drop_first());
            assert(b =~= seq![b[0]] + b.drop_first());
            assert(a == b);
        }
        lemma_seq_lt_total(a.drop_first(), b.drop_first());
    } else if a.len() == 0 && b.len() == 0 {
        assert(a =~= b);
    } else if a.len() > 0 && b.len() > 0 {
        vstd::utf8::char_u32_cast(a[0], a[0] as u32);
        vstd::utf8::char_u32_cast(b[0], b[0] as u32);
    }
}

// ---------------------------------------------------------------------------
// Executable helpers
// ---------------------------------------------------------------------------

/// Collects the characters of a string slice in order.
pub fn chars_of(s: &str) -> (v: Vec<char>)
    ensures
        v@ == s@,
{
    let mut v: Vec<char> = Vec::new();
    for c in it: s.chars()
        invariant
            v@ == it.seq().take(it.index() as int),
            it.seq() == s@,
    {
        v.push(c);
    }
    v
}

/// Appends one character to a string (`String::push`).
#[verifier::external_body]
pub fn push_char(s: &mut String, c: char)
    ensures
        final(s)@ == old(s)@.push(c),
{
    s.push(c);
}

/// Appends a string slice to a string.
pub fn push_str(s: &mut String, t: &str)
    ensures
        final(s)@ == old(s)@ + t@,
{
    s.append(t);
}

/// Builds a string from characters.
pub fn string_from_chars(v: &[char]) -> (s: String)
    ensures
        s@ == v@,
{
    let mut s = String::new();
    let mut i: usize = 0;
    while i < v.len()
        invariant
            i <= v.len(),
            s@ == v@.take(i as int),
        decreases v.len() - i,
    {
        push_char(&mut s, v[i]);
        assert(v@.take(i + 1) =~= v@.take(i as int).push(v@[i as int]));
        i = i + 1;
    }
    assert(v@.take(v.len() as int) =~= v@);
    s
}

/// Copies a string slice into an owned string.
pub fn owned(t: &str) -> (s: String)
    ensures
        s@ == t@,
{
    let mut s = String::new();
    push_str(&mut s, t);
    assert(s@ =~= t@);
    s
}

/// `char::is_whitespace`.
pub fn is_whitespace(c: char) -> (b: bool)
    ensures
        b == is_ws(c),
{
    let v = c as u32;
    (0x09 <= v && v <= 0x0D) || v == 0x20 || v == 0x85 || v == 0xA0 || v == 0x1680 || (0x2000
        <= v && v <= 0x200A) || v == 0x2028 || v == 0x2029 || v == 0x202F || v == 0x205F || v
        == 0x3000
}

/// Byte length of a string (`str::len`): the number of bytes of its UTF-8
/// encoding. Trusted: vstd's own specification of `str::len` casts that count
/// to `usize`; this wrapper also states that the count fits, as it does for
/// every string that exists in memory.
#[verifier::external_body]
pub fn byte_length(s: &str) -> (n: usize)
    ensures
        n == byte_len(s@),
{
    s.len()
}

/// Character count of a string.
pub fn char_count(s: &str) -> (n: usize)
    ensures
        n == s@.len(),
{
    s.unicode_len()
}

/// A string of `n` spaces.
pub fn make_spaces(n: usize) -> (s: String)
    ensures
        s@ == spaces(n as nat),
{
    let mut s = String::new();
    let mut i: usize = 0;
    while i < n
        invariant
            i <= n,
            s@ == spaces(i as nat),
        decreases n - i,
    {
        push_char(&mut s, ' ');
        assert(spaces((i + 1) as nat) =~= spaces(i as nat).push(' '));
        i = i + 1;
    }
    s
}

/// `piece` repeated `n` times (`str::repeat`).
pub fn repeat_text(piece: &str, n: usize) -> (s: String)
    ensures
        s@ == repeat_seq(piece@, n as nat),
{
    let mut s = String::new();
    let mut i: usize = 0;
    assert(s@ =~= repeat_seq(piece@, 0));
    while i < n
        invariant
            i <= n,
            s@ == repeat_seq(piece@, i as nat),
        decreases n - i,
    {
        push_str(&mut s, piece);
        i = i + 1;
    }
    s
}

/// Left-aligned field of `width` characters (`{:<width$}`).
pub fn pad_right_text(t: &str, width: usize) -> (s: String)
    ensures
        s@ == pad_right(t@, width as nat),
{
    let n = char_count(t);
    let mut s = owned(t);
    if n < width {
        let fill = make_spaces(width - n);
        push_str(&mut s, fill.as_str());
    }
    s
}

/// Right-aligned field of `width` characters (`{:>width$}`).
pub fn pad_left_text(t: &str, width: usize) -> (s: String)
    ensures
        s@ == pad_left(t@, width as nat),
{
    let n = char_count(t);
    if n < width {
        let mut s = make_spaces(width - n);
        push_str(&mut s, t);
        s
    } else {
        owned(t)
    }
}

/// Joins strings with a separator (`[String]::join`).
pub fn join_strings(pieces: &Vec<String>, sep: &str) -> (s: String)
    ensures
        s@ == join(views(pieces@), sep@),
{
    let mut s = String::new();
    let mut i: usize = 0;
    assert(views(pieces@).take(0) =~= Seq::<Seq<char>>::empty());
    while i < pieces.len()
        invariant
            i <= pieces.len(),
            s@ == join(views(pieces@).take(i as int), sep@),
        decreases pieces.len() - i,
    {
        let ghost before = views(pieces@).take(i as int);
        proof {
            assert(views(pieces@).take(i + 1) =~= before.push(pieces@[i as int]@));
            lemma_join_push(before, sep@, pieces@[i as int]@);
        }
        if i > 0 {
            push_str(&mut s, sep);
        }
        push_str(&mut s, pieces[i].as_str());
        proof {
            if i == 0 {
                assert(s@ =~= pieces@[0]@);
            }
        }
        i = i + 1;
    }
    assert(views(pieces@).take(pieces.len() as int) =~= views(pieces@));
    s
}

/// Decimal rendering of an unsigned integer (`u64::to_string`).
pub fn u64_to_text(n: u64) -> (s: String)
    ensures
        s@ == decimal(n as nat),
    decreases n,
{
    if n < 10 {
        let mut s = String::new();
        push_char(&mut s, digit(n));
        assert(s@ =~= seq![digit_char(n as nat)]);
        s
    } else {
        let mut s = u64_to_text(n / 10);
        push_char(&mut s, digit(n % 10));
        s
    }
}

/// ASCII digit for a value below ten.
fn digit(d: u64) -> (c: char)
    requires
        d < 10,
    ensures
        c == digit_char(d as nat),
{
    if d == 0 {
        '0'
    } else if d == 1 {
        '1'
    } else if d == 2 {
        '2'
    } else if d == 3 {
        '3'
    } else if d == 4 {
        '4'
    } else if d == 5 {
        '5'
    } else if d == 6 {
        '6'
    } else if d == 7 {
        '7'
    } else if d == 8 {
        '8'
    } else {
        '9'
    }
}


/// Index of the first non-whitespace character.
fn leading_ws_index(x: &Vec<char>) -> (i: usize)
    ensures
        i == leading_ws(x@),
        i <= x.len(),
{
    let mut i: usize = 0;
    while i < x.len() && is_whitespace(x[i])
        invariant
            i <= x.len(),
            forall|j: int| 0 <= j < i ==> is_ws(#[trigger] x@[j]),
        decreases x.len() - i,
    {
        i = i + 1;
    }
    proof {
        lemma_leading_ws(x@, i as int);
    }
    i
}

/// Length of the whitespace run at the end.
fn trailing_ws_count(x: &Vec<char>) -> (k: usize)
    ensures
        k == trailing_ws(x@),
{
    let mut k: usize = 0;
    while k < x.len() && is_whitespace(x[x.len() - 1 - k])
        invariant
            k <= x.len(),
            forall|j: int| x.len() - k <= j < x.len() ==> is_ws(#[trigger] x@[j]),
        decreases x.len() - k,
    {
        k = k + 1;
    }
    proof {
        lemma_trailing_ws(x@, k as int);
    }
    k
}

/// `str::trim_start`.
pub fn trim_start_text(s: &str) -> (r: String)
    ensures
        r@ == trim_start(s@),
{
    let x = chars_of(s);
    let l = leading_ws_index(&x);
    let r = string_from_chars(slice_range(&x, l, x.len()).as_slice());
    r
}

/// `str::trim_end`.
pub fn trim_end_text(s: &str) -> (r: String)
    ensures
        r@ == trim_end(s@),
{
    let x = chars_of(s);
    let k = trailing_ws_count(&x);
    proof {
        assert(k <= x.len()) by {
            lemma_trailing_le(x@);
        }
    }
    string_from_chars(slice_range(&x, 0, x.len() - k).as_slice())
}

/// `str::trim`.
pub fn trim_text(s: &str) -> (r: String)
    ensures
        r@ == trim(s@),
{
    let t = trim_start_text(s);
    trim_end_text(t.as_str())
}

/// The leading whitespace run fits in the sequence.
pub proof fn lemma_leading_le(s: Seq<char>)
    ensures
        leading_ws(s) <= s.len(),
    decreases s.len(),
{
    if s.len() > 0 {
        lemma_leading_le(s.drop_first());
    }
}

/// The trailing whitespace run fits in the sequence.
pub proof fn lemma_trailing_le(s: Seq<char>)
    ensures
        trailing_ws(s) <= s.len(),
    decreases s.len(),
{
    if s.len() > 0 {
        lemma_trailing_le(s.drop_last());
    }
}

/// Copies `x[from..to]`.
pub fn slice_range(x: &Vec<char>, from: usize, to: usize) -> (r: Vec<char>)
    requires
        from <= to <= x.len(),
    ensures
        r@ == x@.subrange(from as int, to as int),
{
    let mut r: Vec<char> = Vec::new();
    let mut i = from;
    while i < to
        invariant
            from <= i <= to,
            to <= x.len(),
            r@ == x@.subrange(from as int, i as int),
        decreases to - i,
    {
        r.push(x[i]);
        assert(x@.subrange(from as int, i + 1) =~= x@.subrange(from as int, i as int).push(x@[i as int]));
        i = i + 1;
    }
    r
}

/// `str::split_whitespace`, collected into owned words.
pub fn split_whitespace_text(s: &str) -> (r: Vec<String>)
    ensures
        views(r@) == words(s@),
{
    let x = chars_of(s);
    let mut tokens: Vec<String> = Vec::new();
    let mut cur = String::new();
    let mut i: usize = 0;
    assert(x@.take(0) =~= Seq::<char>::empty());
    while i < x.len()
        invariant
            x@ == s@,
            i <= x.len(),
            if i > 0 && !is_ws(x@[i - 1]) {
                cur@.len() > 0 && words(x@.take(i as int)) == views(tokens@).push(cur@)
            } else {
                cur@.len() == 0 && words(x@.take(i as int)) == views(tokens@)
            },
        decreases x.len() - i,
    {
        let c = x[i];
        let ghost t = x@.take(i + 1);
        proof {
            assert(t.drop_last() =~= x@.take(i as int));
            assert(t.last() == c);
            if i > 0 {
                assert(t[t.len() - 2] == x@[i - 1]);
            }
        }
        if is_whitespace(c) {
            if cur.as_str().unicode_len() > 0 {
                let ghost before = tokens@;
                let done = cur;
                tokens.push(done);
                cur = String::new();
                proof {
                    assert(views(tokens@) =~= views(before).push(done@));
                }
            }
        } else {
            push_char(&mut cur, c);
            proof {
                if i > 0 && !is_ws(x@[i - 1]) {
                    let w = words(x@.take(i as int));
                    assert(w.drop_last() =~= views(tokens@));
                } else {
                    assert(cur@ =~= seq![c]);
                }
            }
        }
        i = i + 1;
    }
    assert(x@.take(x.len() as int) =~= x@);
    if cur.as_str().unicode_len() > 0 {
        let ghost before = tokens@;
        let done = cur;
        tokens.push(done);
        proof {
            assert(views(tokens@) =~= views(before).push(done@));
        }
    }
    tokens
}

/// Whether two strings hold the same characters.
pub fn text_eq(a: &str, b: &str) -> (r: bool)
    ensures
        r == (a@ == b@),
{
    let x = chars_of(a);
    let y = chars_of(b);
    if x.len() != y.len() {
        return false;
    }
    let mut i: usize = 0;
    while i < x.len()
        invariant
            x@ == a@,
            y@ == b@,
            x.len() == y.len(),
            i <= x.len(),
            forall|j: int| 0 <= j < i ==> x@[j] == y@[j],
        decreases x.len() - i,
    {
        if x[i] != y[i] {
            return false;
        }
        i = i + 1;
    }
    assert(x@ =~= y@);
    true
}

/// Whether `s` starts with `prefix` (`str::starts_with`).
pub fn text_starts_with(s: &str, prefix: &str) -> (r: bool)
    ensures
        r == starts_with(s@, prefix@),
{
    let x = chars_of(s);
    let p = chars_of(prefix);
    if p.len() > x.len() {
        return false;
    }
    let mut i: usize = 0;
    while i < p.len()
        invariant
            x@ == s@,
            p@ == prefix@,
            p.len() <= x.len(),
            i <= p.len(),
            forall|j: int| 0 <= j < i ==> x@[j] == p@[j],
        decreases p.len() - i,
    {
        if x[i] != p[i] {
            assert(x@.subrange(0, p.len() as int)[i as int] != p@[i as int]);
            return false;
        }
        i = i + 1;
    }
    assert(x@.subrange(0, p.len() as int) =~= p@);
    true
}

/// Strict lexicographic comparison of two strings (`a < b` on `str`).
pub fn text_lt(a: &str, b: &str) -> (r: bool)
    ensures
        r == seq_lt(a@, b@),
{
    let x = chars_of(a);
    let y = chars_of(b);
    let mut i: usize = 0;
    assert(x@.skip(0) =~= x@);
    assert(y@.skip(0) =~= y@);
    while i < x.len() && i < y.len()
        invariant
            x@ == a@,
            y@ == b@,
            i <= x.len(),
            i <= y.len(),
            seq_lt(a@, b@) == seq_lt(x@.skip(i as int), y@.skip(i as int)),
        decreases x.len() - i,
    {
        assert(x@.skip(i as int)[0] == x@[i as int]);
        assert(y@.skip(i as int)[0] == y@[i as int]);
        assert(x@.skip(i as int).len() > 0 && y@.skip(i as int).len() > 0);
        let cx = x[i];
        let cy = y[i];
        if cx != cy {
            let vx = cx as u32;
            let vy = cy as u32;
            return vx < vy;
        }
        assert(x@.skip(i as int).drop_first() =~= x@.skip(i + 1));
        assert(y@.skip(i as int).drop_first() =~= y@.skip(i + 1));
        i = i + 1;
    }
    assert(x@.skip(i as int).len() == x.len() - i);
    i == x.len() && i < y.len()
}


/// Whether `pat` occurs in `s` at character index `i`.
pub open spec fn occurs_at(s: Seq<char>, pat: Seq<char>, i: int) -> bool {
    0 <= i && i + pat.len() <= s.len() && s.subrange(i, i + pat.len()) == pat
}

/// Character index of the first occurrence of `pat` in `s` (`str::find`).
pub open spec fn find_index(s: Seq<char>, pat: Seq<char>) -> Option<int> {
    if exists|i: int| occurs_at(s, pat, i) {
        Some(choose|i: int| occurs_at(s, pat, i) && forall|j: int| 0 <= j < i ==> !#[trigger] occurs_at(s, pat, j))
    } else {
        None
    }
}

/// The first occurrence of `pat` in `s`, as a character index.
pub fn find_text(s: &str, pat: &str) -> (r: Option<usize>)
    ensures
        match find_index(s@, pat@) {
            Some(i) => r matches Some(k) && k == i && i + pat@.len() <= s@.len(),
            None => r is None,
        },
{
    let x = chars_of(s);
    let p = chars_of(pat);
    if p.len() > x.len() {
        proof {
            assert forall|i: int| !occurs_at(s@, pat@, i) by {}
        }
        return None;
    }
    let mut i: usize = 0;
    while i <= x.len() - p.len()
        invariant
            x@ == s@,
            p@ == pat@,
            p.len() <= x.len(),
            i <= x.len() - p.len() + 1,
            forall|j: int| 0 <= j < i ==> !#[trigger] occurs_at(s@, pat@, j),
        decreases x.len() - p.len() + 1 - i,
    {
        let mut k: usize = 0;
        let mut hit = true;
        while k < p.len()
            invariant
                x@ == s@,
                p@ == pat@,
                i + p.len() <= x.len(),
                k <= p.len(),
                hit == forall|m: int| 0 <= m < k ==> x@[i + m] == p@[m],
            decreases p.len() - k,
        {
            if x[i + k] != p[k] {
                hit = false;
            }
            k = k + 1;
        }
        if hit {
            proof {
                assert(s@.subrange(i as int, i + pat@.len()) =~= pat@);
                assert(occurs_at(s@, pat@, i as int));
                let c = choose|c: int| occurs_at(s@, pat@, c) && forall|j: int| 0 <= j < c ==> !#[trigger] occurs_at(s@, pat@, j);
                if c < i {
                } else if c > i {
                    assert(!occurs_at(s@, pat@, i as int));
                }
            }
            return Some(i);
        }
        proof {
            assert(!occurs_at(s@, pat@, i as int)) by {
                if occurs_at(s@, pat@, i as int) {
                    assert forall|m: int| 0 <= m < p.len() implies x@[i + m] == p@[m] by {
                        assert(s@.subrange(i as int, i + pat@.len())[m] == x@[i + m]);
                    }
                }
            }
        }
        i = i + 1;
    }
    proof {
        assert forall|j: int| !occurs_at(s@, pat@, j) by {
            if j >= i {
            }
        }
    }
    None
}

/// Whether `s` ends with `suffix` (`str::ends_with`).
pub fn text_ends_with(s: &str, suffix: &str) -> (r: bool)
    ensures
        r == ends_with(s@, suffix@),
{
    let x = chars_of(s);
    let p = chars_of(suffix);
    if p.len() > x.len() {
        return false;
    }
    let off = x.len() - p.len();
    let mut i: usize = 0;
    while i < p.len()
        invariant
            x@ == s@,
            p@ == suffix@,
            off == x.len() - p.len(),
            i <= p.len(),
            forall|j: int| 0 <= j < i ==> x@[off + j] == p@[j],
        decreases p.len() - i,
    {
        if x[off + i] != p[i] {
            assert(x@.subrange(off as int, x.len() as int)[i as int] != p@[i as int]);
            return false;
        }
        i = i + 1;
    }
    assert(x@.subrange(off as int, x.len() as int) =~= p@);
    true
}

/// Copies the characters `from..to` of a string.
pub fn substring(s: &str, from: usize, to: usize) -> (r: String)
    requires
        from <= to <= s@.len(),
    ensures
        r@ == s@.subrange(from as int, to as int),
{
    let x = chars_of(s);
    string_from_chars(slice_range(&x, from, to).as_slice())
}

} // verus!
