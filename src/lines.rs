//! Joining line-oriented files keyed by a zero-padded numeric id (each line
//! starts with a 12-character id, followed by its data), and the first-letter
//! grouping of sequences, in which `I` to `L` form one group.

use vstd::prelude::*;
use vstd::slice::slice_subrange;
use crate::text::{chars_of, parse_u64, push_char, unsigned_value, trim, trim_string};

verus! {

/// Number of characters of the id that starts each line.
pub const ID_PADDING: usize = 12;

/// A keyed line, read: the id its first 12 characters spell, and the rest
/// without surrounding whitespace.
pub open spec fn keyed_line(s: Seq<char>) -> Option<(int, Seq<char>)> {
    if s.len() >= ID_PADDING && unsigned_value(s.take(ID_PADDING as int)) is Some
        && unsigned_value(s.take(ID_PADDING as int)).unwrap() <= u64::MAX {
        Some(
            (
                unsigned_value(s.take(ID_PADDING as int)).unwrap(),
                trim(s.skip(ID_PADDING as int)),
            ),
        )
    } else {
        None
    }
}

/// Splits a keyed line into its id and its trimmed data; `None` when the
/// line is shorter than the id or the id is not a number.
pub fn split_line(line: &str) -> (r: Option<(u64, String)>)
    ensures
        match r {
            Some((id, data)) => keyed_line(line@) == Some((id as int, data@)),
            None => keyed_line(line@) is None,
        },
{
    let cs = chars_of(line);
    if cs.len() < ID_PADDING {
        return None;
    }
    let id = match parse_u64(slice_subrange(cs.as_slice(), 0, ID_PADDING)) {
        Some(v) => v,
        None => return None,
    };
    let data = trim_string(slice_subrange(cs.as_slice(), ID_PADDING, cs.len()));
    assert(line@.subrange(ID_PADDING as int, line@.len() as int) =~= line@.skip(ID_PADDING as int));
    Some((id, data))
}

/// The text `\N` that marks a missing value.
pub fn null_text() -> (r: String)
    ensures
        r@ == seq!['\\', 'N'],
{
    let mut r = String::new();
    push_char(&mut r, '\\');
    push_char(&mut r, 'N');
    assert(r@ =~= seq!['\\', 'N']);
    r
}

/// Walks a keyed file alongside a driving sequence of ids, one line ahead at
/// most: a line whose id is not yet asked for waits in a buffer.
pub struct LineRetriever {
    buffered: Option<(u64, String)>,
}

impl View for LineRetriever {
    type V = Option<(u64, Seq<char>)>;

    closed spec fn view(&self) -> Option<(u64, Seq<char>)> {
        match self.buffered {
            Some((id, l)) => Some((id, l@)),
            None => None,
        }
    }
}

impl LineRetriever {
    /// A retriever with nothing buffered.
    pub fn new() -> (r: LineRetriever)
        ensures
            r@ is None,
    {
        LineRetriever { buffered: None }
    }

    /// Whether the next call of `get` reads a line: only when nothing is
    /// buffered.
    pub fn needs_line(&self) -> (r: bool)
        ensures
            r == (self@ is None),
    {
        self.buffered.is_none()
    }

    /// The data for `required_id`, or `\N` when the file has none for it.
    /// `next` is the file's next line (id and data), read only when
    /// `needs_line` said so; it is ignored otherwise.
    pub fn get(&mut self, required_id: u64, next: Option<(u64, String)>) -> (r: String)
        ensures
            match old(self)@ {
                Some((id, l)) => if id == required_id {
                    r@ == l && final(self)@ is None
                } else {
                    r@ == seq!['\\', 'N'] && final(self)@ == old(self)@
                },
                None => match next {
                    None => r@ == seq!['\\', 'N'] && final(self)@ is None,
                    Some((id, d)) => if id == required_id {
                        r@ == d@ && final(self)@ is None
                    } else {
                        r@ == seq!['\\', 'N'] && final(self)@ == Some((id, d@))
                    },
                },
            },
    {
        match self.buffered.take() {
            Some((id, l)) => {
                if id == required_id {
                    l
                } else {
                    self.buffered = Some((id, l));
                    null_text()
                }
            },
            None => match next {
                None => null_text(),
                Some((id, d)) => {
                    if id == required_id {
                        d
                    } else {
                        self.buffered = Some((id, d));
                        null_text()
                    }
                },
            },
        }
    }
}

/// Whether `seq` starts with `c`, where the letters `I` to `L` count as one:
/// for `c == 'I'` any of `I`, `J`, `K`, `L` matches.
pub fn sequence_starts_with(seq: &str, c: char) -> (r: bool)
    requires
        seq@.len() > 0,
    ensures
        r == if c == 'I' {
            'I' <= seq@[0] && seq@[0] <= 'L'
        } else {
            seq@[0] == c
        },
{
    let first = seq.get_char(0);
    if c == 'I' {
        return 'I' <= first && first <= 'L';
    }
    first == c
}

/// Whether either sequence starts with `c`, as `sequence_starts_with` reads it.
pub fn eq_or_og_starts_with(eq: &str, og: &str, c: char) -> (r: bool)
    requires
        eq@.len() > 0,
        og@.len() > 0,
    ensures
        r == (if c == 'I' {
            'I' <= eq@[0] && eq@[0] <= 'L'
        } else {
            eq@[0] == c
        } || if c == 'I' {
            'I' <= og@[0] && og@[0] <= 'L'
        } else {
            og@[0] == c
        }),
{
    sequence_starts_with(eq, c) || sequence_starts_with(og, c)
}

} // verus!
