//! The segment locator: from a segment's index and a position of the format
//! ring to the name it is requested under, its URL, and the key it is stored
//! under.

use vstd::prelude::*;
use crate::text::{decimal, lemma_padded_parses_back, padded, parse_unsigned, to_decimal, to_padded};

verus! {

/// How many formats the standard ring has.
pub const STANDARD_RING_LEN: usize = 8;

/// How many characters a cache key has at least.
pub const CACHE_KEY_WIDTH: usize = 8;

/// The format at `position` of the standard ring.
pub open spec fn standard_format_at(position: nat) -> Seq<char>
    recommends
        position < STANDARD_RING_LEN,
{
    if position == 0 {
        seq!['h', 't', 'm', 'l']
    } else if position == 1 {
        seq!['j', 's']
    } else if position == 2 {
        seq!['c', 's', 's']
    } else if position == 3 {
        seq!['t', 'x', 't']
    } else if position == 4 {
        seq!['p', 'n', 'g']
    } else if position == 5 {
        seq!['w', 'e', 'b', 'p']
    } else if position == 6 {
        seq!['i', 'c', 'o']
    } else {
        seq!['j', 'p', 'g']
    }
}

/// The standard ring: the file types that the stream cycles through.
pub open spec fn standard_formats() -> Seq<Seq<char>> {
    Seq::new(STANDARD_RING_LEN as nat, |position: int| standard_format_at(position as nat))
}

/// The name of segment `index` in `format`: `seg-<index>-v1-a1.<format>`.
pub open spec fn segment_name_of(index: nat, format: Seq<char>) -> Seq<char> {
    seq!['s', 'e', 'g', '-'] + decimal(index) + seq!['-', 'v', '1', '-', 'a', '1', '.'] + format
}

/// The URL of the segment called `segment` under `base`.
pub open spec fn segment_url_of(base: Seq<char>, segment: Seq<char>) -> Seq<char> {
    base + seq!['/'] + segment
}

/// The key that segment `index` is stored under, whatever its format.
pub open spec fn cache_key_of(index: nat) -> Seq<char> {
    padded(index, CACHE_KEY_WIDTH as nat)
}

/// The formats as character sequences.
pub open spec fn format_names(formats: Seq<String>) -> Seq<Seq<char>> {
    formats.map_values(|format: String| format@)
}

/// The format at `position` of the standard ring.
pub fn standard_format(position: usize) -> (format: &'static str)
    requires
        position < STANDARD_RING_LEN,
    ensures
        format@ == standard_format_at(position as nat),
{
    proof {
        reveal_strlit("html");
        reveal_strlit("js");
        reveal_strlit("css");
        reveal_strlit("txt");
        reveal_strlit("png");
        reveal_strlit("webp");
        reveal_strlit("ico");
        reveal_strlit("jpg");
    }
    let format = if position == 0 {
        "html"
    } else if position == 1 {
        "js"
    } else if position == 2 {
        "css"
    } else if position == 3 {
        "txt"
    } else if position == 4 {
        "png"
    } else if position == 5 {
        "webp"
    } else if position == 6 {
        "ico"
    } else {
        "jpg"
    };
    assert(format@ =~= standard_format_at(position as nat));
    format
}

/// Writes the name of segment `index` in `format`.
fn name_in_format(index: usize, format: &str) -> (name: String)
    ensures
        name@ == segment_name_of(index as nat, format@),
{
    proof {
        reveal_strlit("seg-");
        reveal_strlit("-v1-a1.");
    }
    let mut name = String::from_str("seg-");
    assert(name@ =~= seq!['s', 'e', 'g', '-']);
    let digits = to_decimal(index);
    name.append(digits.as_str());
    let ghost numbered = name@;
    name.append("-v1-a1.");
    assert(name@ =~= numbered + seq!['-', 'v', '1', '-', 'a', '1', '.']);
    name.append(format);
    name
}

/// The name of segment `index` in the format at `ext_index` of the standard
/// ring.
pub fn segment_name(index: usize, ext_index: usize) -> (name: String)
    requires
        ext_index < STANDARD_RING_LEN,
    ensures
        name@ == segment_name_of(index as nat, standard_formats()[ext_index as int]),
{
    name_in_format(index, standard_format(ext_index))
}

/// The URL of `segment` under `url`: the two with a slash between them.
pub fn generate_url(url: &str, segment: &str) -> (full: String)
    ensures
        full@ == segment_url_of(url@, segment@),
{
    proof {
        reveal_strlit("/");
    }
    let mut full = String::from_str(url);
    full.append("/");
    assert(full@ =~= url@ + seq!['/']);
    full.append(segment);
    full
}

/// The key that segment `index` is stored under: the index in decimal,
/// filled up with zeros to eight characters. The format is no part of it.
pub fn cache_key(index: usize) -> (key: String)
    ensures
        key@ == cache_key_of(index as nat),
{
    to_padded(index, CACHE_KEY_WIDTH)
}

/// A cache key read as a number gives back the index it was made from.
pub proof fn lemma_cache_key_names_its_index(index: nat)
    requires
        index <= usize::MAX,
    ensures
        parse_unsigned(cache_key_of(index)) == Some(index),
{
    lemma_padded_parses_back(index, CACHE_KEY_WIDTH as nat);
}

/// A format ring: the candidate formats of a stream, in the order in which
/// the stream cycles through them. It has at least one format.
pub struct FormatRing {
    formats: Vec<String>,
}

impl View for FormatRing {
    type V = Seq<Seq<char>>;

    closed spec fn view(&self) -> Seq<Seq<char>> {
        format_names(self.formats@)
    }
}

impl FormatRing {
    #[verifier::type_invariant]
    spec fn inv(&self) -> bool {
        self.formats@.len() > 0
    }

    /// The ring of `formats`, in their order; none where there is no format.
    pub fn new(formats: Vec<String>) -> (ring: Option<FormatRing>)
        ensures
            match ring {
                Some(ring) => formats@.len() > 0 && ring@ == format_names(formats@),
                None => formats@.len() == 0,
            },
    {
        if formats.len() == 0 {
            None
        } else {
            Some(FormatRing { formats })
        }
    }

    /// The standard ring.
    pub fn standard() -> (ring: FormatRing)
        ensures
            ring@ == standard_formats(),
    {
        let mut formats: Vec<String> = Vec::new();
        let mut position: usize = 0;
        while position < STANDARD_RING_LEN
            invariant
                position <= STANDARD_RING_LEN,
                formats@.len() == position,
                forall|k: int|
                    0 <= k < position ==> (#[trigger] formats@[k])@ == standard_format_at(k as nat),
            decreases STANDARD_RING_LEN - position,
        {
            formats.push(String::from_str(standard_format(position)));
            position += 1;
        }
        assert(format_names(formats@) =~= standard_formats());
        FormatRing { formats }
    }

    /// How many formats the ring has.
    pub fn len(&self) -> (len: usize)
        ensures
            len == self@.len(),
            len > 0,
    {
        proof {
            use_type_invariant(self);
        }
        self.formats.len()
    }

    /// The format at `position`.
    pub fn format(&self, position: usize) -> (format: &str)
        requires
            position < self@.len(),
        ensures
            format@ == self@[position as int],
    {
        self.formats[position].as_str()
    }

    /// The name of segment `index` in the format at `position`.
    pub fn segment_name(&self, index: usize, position: usize) -> (name: String)
        requires
            position < self@.len(),
        ensures
            name@ == segment_name_of(index as nat, self@[position as int]),
    {
        name_in_format(index, self.format(position))
    }

    /// The URL under `base` of segment `index` in the format at `position`.
    pub fn segment_url(&self, base: &str, index: usize, position: usize) -> (url: String)
        requires
            position < self@.len(),
        ensures
            url@ == segment_url_of(base@, segment_name_of(index as nat, self@[position as int])),
    {
        let name = self.segment_name(index, position);
        generate_url(base, name.as_str())
    }
}

} // verus!
