//! Dot-notation paths: splitting into segments, and sequence indices.
use vstd::prelude::*;
use crate::error::{PathError, PathFault};
use crate::text::{chars_of, i64_value, parse_i64, push_char, string_of};

verus! {

/// The characters of each string, string by string.
pub open spec fn texts(v: Seq<String>) -> Seq<Seq<char>> {
    v.map_values(|s: String| s@)
}

/// Splitting the rest `s` of a path, given whether the last character was an
/// unused backslash, the segment read so far and the segments completed.
pub open spec fn split_from(
    s: Seq<char>,
    escaped: bool,
    current: Seq<char>,
    done: Seq<Seq<char>>,
) -> Seq<Seq<char>>
    decreases s.len(),
{
    if s.len() == 0 {
        done.push(current)
    } else if escaped {
        split_from(s.drop_first(), false, current.push(s[0]), done)
    } else if s[0] == '\\' {
        split_from(s.drop_first(), true, current, done)
    } else if s[0] == '.' {
        split_from(s.drop_first(), false, Seq::empty(), done.push(current))
    } else {
        split_from(s.drop_first(), false, current.push(s[0]), done)
    }
}

/// The segments of a dot-notation path: split on each `.` not preceded by an
/// escaping backslash; `\x` stands for `x`, and a trailing lone `\` is dropped.
pub open spec fn path_segments(p: Seq<char>) -> Seq<Seq<char>> {
    split_from(p, false, Seq::empty(), Seq::empty())
}

proof fn lemma_split_from_nonempty(s: Seq<char>, escaped: bool, current: Seq<char>, done: Seq<Seq<char>>)
    ensures
        split_from(s, escaped, current, done).len() > done.len(),
    decreases s.len(),
{
    if s.len() > 0 {
        if escaped {
            lemma_split_from_nonempty(s.drop_first(), false, current.push(s[0]), done);
        } else if s[0] == '\\' {
            lemma_split_from_nonempty(s.drop_first(), true, current, done);
        } else if s[0] == '.' {
            lemma_split_from_nonempty(s.drop_first(), false, Seq::empty(), done.push(current));
        } else {
            lemma_split_from_nonempty(s.drop_first(), false, current.push(s[0]), done);
        }
    }
}

/// A path always has at least one segment, possibly empty.
pub proof fn lemma_path_segments_nonempty(p: Seq<char>)
    ensures
        path_segments(p).len() >= 1,
{
    lemma_split_from_nonempty(p, false, Seq::empty(), Seq::empty());
}

/// Split a dot-notation path into its segments: `a.b\.c.d` gives `a`, `b.c`
/// and `d`; `a..b` gives `a`, an empty segment, and `b`.
pub fn split_path(path: &str) -> (r: Vec<String>)
    ensures
        texts(r@) == path_segments(path@),
        r@.len() >= 1,
{
    let cs = chars_of(path);
    let mut elements: Vec<String> = Vec::new();
    let mut escaped = false;
    let mut element = String::new();
    let mut i: usize = 0;
    assert(cs@.subrange(0, cs@.len() as int) =~= path@);
    assert(texts(elements@) =~= Seq::<Seq<char>>::empty());
    while i < cs.len()
        invariant
            cs@ == path@,
            0 <= i <= cs.len(),
            split_from(cs@.subrange(i as int, cs@.len() as int), escaped, element@, texts(elements@))
                == path_segments(path@),
        decreases cs.len() - i,
    {
        let c = cs[i];
        let ghost rest = cs@.subrange(i as int, cs@.len() as int);
        assert(rest.drop_first() =~= cs@.subrange(i + 1, cs@.len() as int));
        if escaped {
            escaped = false;
            push_char(&mut element, c);
        } else if c == '\\' {
            escaped = true;
        } else if c == '.' {
            let ghost before = texts(elements@);
            let done = element;
            elements.push(done);
            assert(texts(elements@) =~= before.push(done@));
            element = String::new();
        } else {
            push_char(&mut element, c);
        }
        i += 1;
    }
    let ghost before = texts(elements@);
    let last = element;
    elements.push(last);
    assert(texts(elements@) =~= before.push(last@));
    proof {
        assert(cs@.subrange(i as int, cs@.len() as int) =~= Seq::<char>::empty());
        lemma_path_segments_nonempty(path@);
    }
    elements
}

/// Where the segment `seg` points in a sequence of `len` elements: an index
/// from the front, or from the back when negative (`-1` is the last).
/// `path` is the whole path, which an error names.
pub open spec fn index_in(seg: Seq<char>, len: int, path: Seq<char>) -> Result<int, PathFault> {
    match i64_value(seg) {
        None => Err(PathFault::NonIntegerIndex(path, seg)),
        Some(v) => if v >= len || (v < 0 && -v > len) {
            Err(PathFault::IndexOutOfRange(path, v, len))
        } else if v < 0 {
            Ok(len + v)
        } else {
            Ok(v)
        },
    }
}

/// Resolve a segment to an index of a sequence of `len` elements; negative
/// indices count from the end.
pub fn resolve_index(part: &str, len: usize, full_path: &str) -> (r: Result<usize, PathError>)
    ensures
        match index_in(part@, len as int, full_path@) {
            Ok(i) => r is Ok && r->Ok_0 as int == i,
            Err(f) => r is Err && r->Err_0@ == f,
        },
{
    let idx = match parse_i64(part) {
        Some(v) => v,
        None => {
            return Err(
                PathError::NonIntegerIndex {
                    path: string_of(&chars_of(full_path)),
                    segment: string_of(&chars_of(part)),
                },
            );
        },
    };
    let wide: i128 = idx as i128;
    if wide >= len as i128 || (wide < 0 && -wide > len as i128) {
        return Err(
            PathError::IndexOutOfRange {
                path: string_of(&chars_of(full_path)),
                index: idx,
                len,
            },
        );
    }
    if wide < 0 {
        Ok((len as i128 + wide) as usize)
    } else {
        Ok(idx as usize)
    }
}

} // verus!
