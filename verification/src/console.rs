//! Console options and the completion position of typed input.

use vstd::prelude::*;

use crate::text::{byte_len, chars_of, is_whitespace, is_ws, lemma_byte_len_concat, owned};

verus! {

/// A command typed on the console; `C` signals that it has been handled.
pub struct ConsoleInput<C> {
    /// The typed command.
    pub command: String,
    /// Signalled once the command has been handled.
    pub completed: C,
}

/// Console settings.
pub struct ConsoleOptions {
    /// Interactive prompt.
    pub prompt: String,
    /// Banner printed at start.
    pub banner: String,
}

impl ConsoleOptions {
    /// Console settings with the given prompt and banner.
    pub fn new(prompt: String, banner: String) -> (o: ConsoleOptions)
        ensures
            o.prompt@ == prompt@,
            o.banner@ == banner@,
    {
        ConsoleOptions { prompt, banner }
    }

    /// The gateway console: prompt `hypergate> `.
    pub fn gateway(banner: String) -> (o: ConsoleOptions)
        ensures
            o.prompt@ == "hypergate> "@,
            o.banner@ == banner@,
    {
        ConsoleOptions::new(owned("hypergate> "), banner)
    }
}

/// The byte offset where the word being completed starts: just after the
/// last whitespace character, or 0 when there is none.
pub open spec fn word_start(input: Seq<char>) -> nat
    decreases input.len(),
{
    if input.len() == 0 {
        0
    } else if is_ws(input.last()) {
        byte_len(input)
    } else {
        word_start(input.drop_last())
    }
}

/// Byte offset of the word being completed in typed input.
pub fn completion_start(input: &str) -> (n: usize)
    ensures
        n == word_start(input@),
{
    let chars = chars_of(input);
    let mut end: usize = chars.len();
    assert(chars@.take(end as int) =~= chars@);
    while end > 0 && !is_whitespace(chars[end - 1])
        invariant
            end <= chars@.len(),
            chars@ == input@,
            word_start(chars@.take(end as int)) == word_start(input@),
        decreases end,
    {
        assert(chars@.take(end - 1) =~= chars@.take(end as int).drop_last());
        end = end - 1;
    }
    if end == 0 {
        return 0;
    }
    let all_bytes = crate::text::byte_length(input);
    let mut total: usize = 0;
    let mut i: usize = 0;
    proof {
        assert(chars@.take(0) =~= Seq::<char>::empty());
        crate::text::lemma_byte_len_ge_len(input@);
        lemma_byte_len_prefix(input@, end as int);
    }
    while i < end
        invariant
            i <= end <= chars@.len(),
            chars@ == input@,
            total == byte_len(chars@.take(i as int)),
            byte_len(chars@.take(end as int)) <= byte_len(input@),
            byte_len(input@) <= usize::MAX,
        decreases end - i,
    {
        proof {
            lemma_byte_len_prefix(chars@.take(end as int), i + 1);
            assert(chars@.take(end as int).take(i + 1) =~= chars@.take(i + 1));
            assert(chars@.take(i + 1) =~= chars@.take(i as int) + seq![chars@[i as int]]);
            lemma_byte_len_concat(chars@.take(i as int), seq![chars@[i as int]]);
            crate::text::lemma_byte_len_one(chars@[i as int]);
        }
        total = total + utf8_len(chars[i]);
        i = i + 1;
    }
    proof {
        assert(chars@.take(end as int).last() == chars@[end - 1]);
    }
    total
}

/// A prefix is no longer in bytes than the whole.
proof fn lemma_byte_len_prefix(s: Seq<char>, k: int)
    requires
        0 <= k <= s.len(),
    ensures
        byte_len(s.take(k)) <= byte_len(s),
{
    assert(s =~= s.take(k) + s.skip(k));
    lemma_byte_len_concat(s.take(k), s.skip(k));
}

/// `char::len_utf8`.
fn utf8_len(c: char) -> (n: usize)
    ensures
        n == crate::text::utf8_width(c),
{
    let v = c as u32;
    if v < 0x80 {
        1
    } else if v < 0x800 {
        2
    } else if v < 0x10000 {
        3
    } else {
        4
    }
}

} // verus!
