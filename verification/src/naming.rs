//! The names under which readers and writers appear in logs and metrics.
//! A name is made of the last segment of the description of the connector
//! and of an id.

use crate::text::{join_text, decimal, decimal_digits, text_equal};
use vstd::prelude::*;
use vstd::string::*;

verus! {

/// Where the last segment of a `::`-separated description begins, as a scan
/// from the position `i` finds it when `start` is the beginning of the
/// segment it is in. Separators are found from the left and do not overlap.
pub open spec fn segment_start(s: Seq<char>, i: int, start: int) -> int
    decreases s.len() - i,
{
    if i < 0 || i + 1 >= s.len() {
        start
    } else if s[i] == ':' && s[i + 1] == ':' {
        segment_start(s, i + 2, i + 2)
    } else {
        segment_start(s, i + 1, start)
    }
}

/// The last segment of a `::`-separated description.
pub open spec fn last_segment(s: Seq<char>) -> Seq<char> {
    s.subrange(segment_start(s, 0, 0), s.len() as int)
}

/// The word that the names of readers leave out.
pub open spec fn builder_word() -> Seq<char> {
    "Builder"@
}

/// The word `Builder` stands at the position `i` of a text.
pub open spec fn has_builder_at(s: Seq<char>, i: int) -> bool {
    0 <= i && i + 7 <= s.len() && s.subrange(i, i + 7) == builder_word()
}

/// A text from the position `i` on, without the occurrences of the word
/// `Builder`. Occurrences are found from the left and do not overlap.
pub open spec fn without_builder(s: Seq<char>, i: int) -> Seq<char>
    decreases s.len() - i,
{
    if i < 0 || i >= s.len() {
        seq![]
    } else if has_builder_at(s, i) {
        without_builder(s, i + 7)
    } else {
        seq![s[i]] + without_builder(s, i + 1)
    }
}

/// The name of a reader: the last segment of its description without the
/// word `Builder`, a hyphen, and its persistent id where it has one, or else
/// its number.
pub open spec fn reader_name_of(
    short_description: Seq<char>,
    persistent_id: Option<Seq<char>>,
    id: usize,
) -> Seq<char> {
    without_builder(last_segment(short_description), 0) + seq!['-'] + (match persistent_id {
        Some(persistent) => persistent,
        None => decimal_digits(id as nat),
    })
}

/// The name of a writer: the last segment of its description, a hyphen, and
/// its number.
pub open spec fn writer_name_of(short_description: Seq<char>, id: usize) -> Seq<char> {
    last_segment(short_description) + seq!['-'] + decimal_digits(id as nat)
}

proof fn lemma_segment_start_bounds(s: Seq<char>, i: int, start: int)
    requires
        0 <= start <= i <= s.len(),
    ensures
        0 <= segment_start(s, i, start) <= s.len(),
    decreases s.len() - i,
{
    if i + 1 < s.len() {
        if s[i] == ':' && s[i + 1] == ':' {
            lemma_segment_start_bounds(s, i + 2, i + 2);
        } else {
            lemma_segment_start_bounds(s, i + 1, start);
        }
    }
}

/// The last segment of a `::`-separated description.
pub fn last_segment_of(short_description: &str) -> (r: String)
    ensures
        r@ == last_segment(short_description@),
{
    let len = short_description.unicode_len();
    let mut start: usize = 0;
    let mut i: usize = 0;
    while i < len && i + 1 < len
        invariant
            len == short_description@.len(),
            start <= i <= len,
            segment_start(short_description@, i as int, start as int) == segment_start(
                short_description@,
                0,
                0,
            ),
        decreases len - i,
    {
        if short_description.get_char(i) == ':' && short_description.get_char(i + 1) == ':' {
            i += 2;
            start = i;
        } else {
            i += 1;
        }
    }
    short_description.substring_char(start, len).to_owned()
}

/// A text without the occurrences of the word `Builder`.
pub fn strip_builder(name: &str) -> (r: String)
    ensures
        r@ == without_builder(name@, 0),
{
    let len = name.unicode_len();
    let mut out = String::new();
    let mut i: usize = 0;
    while i < len
        invariant
            len == name@.len(),
            i <= len,
            out@ + without_builder(name@, i as int) == without_builder(name@, 0),
        decreases len - i,
    {
        let found = len - i >= 7 && text_equal(name.substring_char(i, i + 7), "Builder");
        if found {
            i += 7;
        } else {
            let ghost before = out@;
            out.append(name.substring_char(i, i + 1));
            assert(out@ =~= before + seq![name@[i as int]]);
            assert(out@ + without_builder(name@, i + 1) =~= before + (seq![name@[i as int]]
                + without_builder(name@, i + 1)));
            i += 1;
        }
    }
    assert(out@ + Seq::<char>::empty() =~= out@);
    out
}

/// The name of the reader number `id` with the description
/// `short_description`.
pub fn reader_name(short_description: &str, persistent_id: Option<&str>, id: usize) -> (r: String)
    ensures
        r@ == reader_name_of(
            short_description@,
            match persistent_id {
                Some(persistent) => Some(persistent@),
                None => None,
            },
            id,
        ),
{
    let segment = last_segment_of(short_description);
    let name = strip_builder(segment.as_str());
    proof {
        reveal_strlit("-");
    }
    let head = join_text(name.as_str(), "-");
    match persistent_id {
        Some(persistent) => join_text(head.as_str(), persistent),
        None => {
            let number = decimal(id as u128);
            join_text(head.as_str(), number.as_str())
        },
    }
}

/// The name of the writer number `id` with the description
/// `short_description`.
pub fn writer_name(short_description: &str, id: usize) -> (r: String)
    ensures
        r@ == writer_name_of(short_description@, id),
{
    let segment = last_segment_of(short_description);
    proof {
        reveal_strlit("-");
    }
    let head = join_text(segment.as_str(), "-");
    let number = decimal(id as u128);
    join_text(head.as_str(), number.as_str())
}

} // verus!
