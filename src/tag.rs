//! Node tags and the merge directives they may carry.
//!
//! A tag is an optional `!` and then parts joined by `;`, where a `;` inside
//! parentheses does not split. A part `merge:<op>` is a merge directive, with
//! `<op>` one of `replace`, `append` or `prepend`; the other parts are kept.
use vstd::prelude::*;
use crate::text::{
    chars_of, find_char, first_index_of, same_chars, slice_chars, starts_with, starts_with_chars,
    string_of, trim_str, trimmed,
};

verus! {

/// A merge operation named by a tag.
#[derive(Debug, Clone, Copy, PartialEq, Eq, Structural)]
pub enum MergeOp {
    /// Replace the base value entirely.
    Replace,
    /// Append the overlay items after the base items (sequences only).
    Append,
    /// Put the overlay items before the base items (sequences only).
    Prepend,
}

/// The name by which a tag writes an operation.
pub open spec fn op_name(op: MergeOp) -> Seq<char> {
    match op {
        MergeOp::Replace => "replace"@,
        MergeOp::Append => "append"@,
        MergeOp::Prepend => "prepend"@,
    }
}

impl MergeOp {
    /// The name of the operation, as a tag writes it.
    pub fn to_string(&self) -> (r: String)
        ensures
            r@ == op_name(*self),
    {
        match self {
            MergeOp::Replace => String::from_str("replace"),
            MergeOp::Append => String::from_str("append"),
            MergeOp::Prepend => String::from_str("prepend"),
        }
    }
}

/// A tag with its merge directive taken out.
#[derive(Debug, Clone, PartialEq, Eq)]
pub struct ParsedTag {
    /// The other parts, joined by `;` behind a `!`; `None` when there are none.
    pub remaining: Option<String>,
    /// The merge operation, if the tag has a directive.
    pub merge_op: Option<MergeOp>,
}

/// Why a tag could not be parsed.
#[derive(Debug, Clone, PartialEq, Eq)]
pub enum TagError {
    /// `merge:` followed by something other than a known operation.
    UnknownOperation(String),
    /// Two or more merge directives in one tag.
    MultipleMergeDirectives,
    /// A merge directive with parenthesised arguments; holds the operation name.
    UnexpectedArguments(String),
    /// Nothing but an optional `!`.
    EmptyTag,
}

/// The model of a `TagError`.
pub enum TagFault {
    UnknownOperation(Seq<char>),
    MultipleMergeDirectives,
    UnexpectedArguments(Seq<char>),
    EmptyTag,
}

impl View for TagError {
    type V = TagFault;

    open spec fn view(&self) -> TagFault {
        match self {
            TagError::UnknownOperation(s) => TagFault::UnknownOperation(s@),
            TagError::MultipleMergeDirectives => TagFault::MultipleMergeDirectives,
            TagError::UnexpectedArguments(s) => TagFault::UnexpectedArguments(s@),
            TagError::EmptyTag => TagFault::EmptyTag,
        }
    }
}

/// The text that describes a tag error.
pub open spec fn tag_error_text(e: TagFault) -> Seq<char> {
    match e {
        TagFault::UnknownOperation(op) => "unknown merge operation '"@ + op
            + "': expected replace, append, or prepend"@,
        TagFault::MultipleMergeDirectives => "multiple merge directives in tag: only one merge directive allowed per node"@,
        TagFault::UnexpectedArguments(op) => "unexpected arguments for merge operation '"@ + op
            + "': current operations do not accept arguments"@,
        TagFault::EmptyTag => "empty tag"@,
    }
}

impl TagError {
    /// A sentence that describes the error.
    pub fn to_string(&self) -> (r: String)
        ensures
            r@ == tag_error_text(self@),
    {
        match self {
            TagError::UnknownOperation(op) => String::from_str("unknown merge operation '").concat(
                op.as_str(),
            ).concat("': expected replace, append, or prepend"),
            TagError::MultipleMergeDirectives => String::from_str(
                "multiple merge directives in tag: only one merge directive allowed per node",
            ),
            TagError::UnexpectedArguments(op) => String::from_str(
                "unexpected arguments for merge operation '",
            ).concat(op.as_str()).concat("': current operations do not accept arguments"),
            TagError::EmptyTag => String::from_str("empty tag"),
        }
    }
}

/// Splitting the rest `s` of a tag into parts, given the parenthesis depth,
/// the part read so far and the parts completed; empty parts are dropped.
pub open spec fn parts_from(s: Seq<char>, depth: nat, current: Seq<char>, done: Seq<Seq<char>>) -> Seq<
    Seq<char>,
>
    decreases s.len(),
{
    if s.len() == 0 {
        if current.len() > 0 {
            done.push(current)
        } else {
            done
        }
    } else if s[0] == '(' {
        parts_from(s.drop_first(), depth + 1, current.push(s[0]), done)
    } else if s[0] == ')' {
        parts_from(
            s.drop_first(),
            if depth > 0 {
                (depth - 1) as nat
            } else {
                0
            },
            current.push(s[0]),
            done,
        )
    } else if s[0] == ';' && depth == 0 {
        parts_from(
            s.drop_first(),
            0,
            Seq::empty(),
            if current.len() > 0 {
                done.push(current)
            } else {
                done
            },
        )
    } else {
        parts_from(s.drop_first(), depth, current.push(s[0]), done)
    }
}

/// The non-empty parts of a tag body, split on `;` outside parentheses.
pub open spec fn tag_parts(content: Seq<char>) -> Seq<Seq<char>> {
    parts_from(content, 0, Seq::empty(), Seq::empty())
}

/// What one part says: a merge operation, nothing (not a directive), or an error.
pub open spec fn merge_part(part: Seq<char>) -> Result<Option<MergeOp>, TagFault> {
    if starts_with(part, "merge:"@) {
        let rest = part.skip("merge:"@.len() as int);
        let k = find_char(rest, '(');
        if k < rest.len() {
            Err(TagFault::UnexpectedArguments(rest.take(k)))
        } else if rest == "replace"@ {
            Ok(Some(MergeOp::Replace))
        } else if rest == "append"@ {
            Ok(Some(MergeOp::Append))
        } else if rest == "prepend"@ {
            Ok(Some(MergeOp::Prepend))
        } else {
            Err(TagFault::UnknownOperation(rest))
        }
    } else {
        Ok(None)
    }
}

/// Reading the parts left to right: the operation found so far and the parts
/// kept so far.
pub open spec fn scan_parts(parts: Seq<Seq<char>>, op: Option<MergeOp>, kept: Seq<Seq<char>>) -> Result<
    (Option<MergeOp>, Seq<Seq<char>>),
    TagFault,
>
    decreases parts.len(),
{
    if parts.len() == 0 {
        Ok((op, kept))
    } else {
        match merge_part(parts[0]) {
            Err(e) => Err(e),
            Ok(Some(o)) => if op is Some {
                Err(TagFault::MultipleMergeDirectives)
            } else {
                scan_parts(parts.drop_first(), Some(o), kept)
            },
            Ok(None) => scan_parts(parts.drop_first(), op, kept.push(parts[0])),
        }
    }
}

/// The parts joined by `;`.
pub open spec fn join_parts(parts: Seq<Seq<char>>) -> Seq<char>
    decreases parts.len(),
{
    if parts.len() == 0 {
        Seq::empty()
    } else if parts.len() == 1 {
        parts[0]
    } else {
        join_parts(parts.drop_last()) + seq![';'] + parts.last()
    }
}

/// The parse of a tag that has no surrounding whitespace: the remaining tag
/// and the merge operation.
pub open spec fn tag_parse(t: Seq<char>) -> Result<(Option<Seq<char>>, Option<MergeOp>), TagFault> {
    let content = if t.len() > 0 && t[0] == '!' {
        t.drop_first()
    } else {
        t
    };
    if content.len() == 0 {
        Err(TagFault::EmptyTag)
    } else {
        match scan_parts(tag_parts(content), None, Seq::empty()) {
            Err(e) => Err(e),
            Ok((op, kept)) => Ok(
                (
                    if kept.len() == 0 {
                        None
                    } else {
                        Some(seq!['!'] + join_parts(kept))
                    },
                    op,
                ),
            ),
        }
    }
}

/// The model of a parsed tag: the remaining tag and the operation.
pub open spec fn parsed_model(p: ParsedTag) -> (Option<Seq<char>>, Option<MergeOp>) {
    (
        match p.remaining {
            Some(s) => Some(s@),
            None => None,
        },
        p.merge_op,
    )
}

/// Whether `r` is the outcome that `expected` describes.
pub open spec fn tag_outcome(r: Result<ParsedTag, TagError>, expected: Result<(Option<Seq<char>>, Option<MergeOp>), TagFault>) -> bool {
    match expected {
        Ok(m) => r is Ok && parsed_model(r->Ok_0) == m,
        Err(e) => r is Err && r->Err_0@ == e,
    }
}

/// Split the characters of `v` from `start` on into tag parts.
fn split_tag_parts(v: &Vec<char>, start: usize) -> (r: Vec<Vec<char>>)
    requires
        start <= v.len(),
    ensures
        r@.map_values(|p: Vec<char>| p@) == tag_parts(v@.subrange(start as int, v@.len() as int)),
{
    let mut parts: Vec<Vec<char>> = Vec::new();
    let mut current: Vec<char> = Vec::new();
    let mut depth: usize = 0;
    let mut i: usize = start;
    assert(v@.subrange(start as int, v@.len() as int) =~= v@.subrange(i as int, v@.len() as int));
    assert(parts@.map_values(|p: Vec<char>| p@) =~= Seq::<Seq<char>>::empty());
    while i < v.len()
        invariant
            start <= i <= v.len(),
            depth <= i,
            parts_from(
                v@.subrange(i as int, v@.len() as int),
                depth as nat,
                current@,
                parts@.map_values(|p: Vec<char>| p@),
            ) == tag_parts(v@.subrange(start as int, v@.len() as int)),
        decreases v.len() - i,
    {
        let c = v[i];
        let ghost rest = v@.subrange(i as int, v@.len() as int);
        assert(rest.drop_first() =~= v@.subrange(i + 1, v@.len() as int));
        if c == '(' {
            depth = depth + 1;
            current.push(c);
        } else if c == ')' {
            if depth > 0 {
                depth = depth - 1;
            }
            current.push(c);
        } else if c == ';' && depth == 0 {
            if current.len() > 0 {
                let ghost before = parts@.map_values(|p: Vec<char>| p@);
                let done = current;
                parts.push(done);
                assert(parts@.map_values(|p: Vec<char>| p@) =~= before.push(done@));
            }
            current = Vec::new();
        } else {
            current.push(c);
        }
        i += 1;
    }
    assert(v@.subrange(i as int, v@.len() as int) =~= Seq::<char>::empty());
    if current.len() > 0 {
        let ghost before = parts@.map_values(|p: Vec<char>| p@);
        let done = current;
        parts.push(done);
        assert(parts@.map_values(|p: Vec<char>| p@) =~= before.push(done@));
    }
    parts
}

/// Whether one tag part is a merge directive, and which.
fn parse_merge_part(part: &Vec<char>) -> (r: Result<Option<MergeOp>, TagError>)
    ensures
        match merge_part(part@) {
            Ok(o) => r is Ok && r->Ok_0 == o,
            Err(e) => r is Err && r->Err_0@ == e,
        },
{
    let prefix = chars_of("merge:");
    if !starts_with_chars(part, &prefix) {
        return Ok(None);
    }
    let rest = slice_chars(part, prefix.len(), part.len());
    assert(rest@ == part@.skip("merge:"@.len() as int));
    let k = first_index_of(&rest, '(');
    if k < rest.len() {
        let name = slice_chars(&rest, 0, k);
        assert(name@ == rest@.take(k as int));
        return Err(TagError::UnexpectedArguments(string_of(&name)));
    }
    if same_chars(&rest, &chars_of("replace")) {
        Ok(Some(MergeOp::Replace))
    } else if same_chars(&rest, &chars_of("append")) {
        Ok(Some(MergeOp::Append))
    } else if same_chars(&rest, &chars_of("prepend")) {
        Ok(Some(MergeOp::Prepend))
    } else {
        Err(TagError::UnknownOperation(string_of(&rest)))
    }
}

/// Parse a tag that has no surrounding whitespace.
pub fn parse_tag_content(t: &str) -> (r: Result<ParsedTag, TagError>)
    ensures
        tag_outcome(r, tag_parse(t@)),
{
    let cs = chars_of(t);
    let start: usize = if cs.len() > 0 && cs[0] == '!' {
        1
    } else {
        0
    };
    let ghost content = if t@.len() > 0 && t@[0] == '!' {
        t@.drop_first()
    } else {
        t@
    };
    assert(content =~= cs@.subrange(start as int, cs@.len() as int));
    if start == cs.len() {
        return Err(TagError::EmptyTag);
    }
    let parts = split_tag_parts(&cs, start);
    let ghost all = parts@.map_values(|p: Vec<char>| p@);
    let mut merge_op: Option<MergeOp> = None;
    let mut kept: Vec<Vec<char>> = Vec::new();
    let mut i: usize = 0;
    assert(all.skip(0) =~= all);
    assert(kept@.map_values(|p: Vec<char>| p@) =~= Seq::<Seq<char>>::empty());
    while i < parts.len()
        invariant
            0 <= i <= parts.len(),
            all == parts@.map_values(|p: Vec<char>| p@),
            all == tag_parts(content),
            content.len() > 0,
            content == (if t@.len() > 0 && t@[0] == '!' {
                t@.drop_first()
            } else {
                t@
            }),
            scan_parts(all.skip(i as int), merge_op, kept@.map_values(|p: Vec<char>| p@))
                == scan_parts(all, None, Seq::empty()),
        decreases parts.len() - i,
    {
        assert(all.skip(i as int).drop_first() =~= all.skip(i + 1));
        assert(all.skip(i as int)[0] == parts@[i as int]@);
        match parse_merge_part(&parts[i]) {
            Err(e) => {
                return Err(e);
            },
            Ok(Some(op)) => {
                if merge_op.is_some() {
                    return Err(TagError::MultipleMergeDirectives);
                }
                merge_op = Some(op);
            },
            Ok(None) => {
                let ghost before = kept@.map_values(|p: Vec<char>| p@);
                let part = slice_chars(&parts[i], 0, parts[i].len());
                assert(part@ =~= parts@[i as int]@);
                kept.push(part);
                assert(kept@.map_values(|p: Vec<char>| p@) =~= before.push(parts@[i as int]@));
            },
        }
        i += 1;
    }
    assert(all.skip(i as int) =~= Seq::<Seq<char>>::empty());
    let ghost kept_model = kept@.map_values(|p: Vec<char>| p@);
    let remaining = if kept.len() == 0 {
        None
    } else {
        let mut out: Vec<char> = Vec::new();
        out.push('!');
        let mut j: usize = 0;
        while j < kept.len()
            invariant
                0 <= j <= kept.len(),
                kept_model == kept@.map_values(|p: Vec<char>| p@),
                out@ == seq!['!'] + join_parts(kept_model.take(j as int)),
            decreases kept.len() - j,
        {
            let ghost prev = out@;
            if j > 0 {
                out.push(';');
            }
            let mut k: usize = 0;
            while k < kept[j].len()
                invariant
                    0 <= k <= kept@[j as int]@.len(),
                    j < kept.len(),
                    out@ == (if j > 0 {
                        prev.push(';')
                    } else {
                        prev
                    }) + kept@[j as int]@.take(k as int),
                decreases kept@[j as int]@.len() - k,
            {
                out.push(kept[j][k]);
                k += 1;
                assert(out@ =~= (if j > 0 {
                    prev.push(';')
                } else {
                    prev
                }) + kept@[j as int]@.take(k as int));
            }
            proof {
                let t = kept_model.take(j + 1);
                assert(t.drop_last() =~= kept_model.take(j as int));
                assert(kept@[j as int]@.take(k as int) =~= kept@[j as int]@);
                if j == 0 {
                    assert(join_parts(t) == t[0]);
                    assert(out@ =~= seq!['!'] + join_parts(t));
                } else {
                    assert(out@ =~= seq!['!'] + join_parts(t));
                }
            }
            j += 1;
        }
        assert(kept_model.take(kept.len() as int) =~= kept_model);
        Some(string_of(&out))
    };
    Ok(ParsedTag { remaining, merge_op })
}

/// Parse a tag (with or without its leading `!`, surrounding whitespace
/// ignored) into its merge directive and the tag that remains.
pub fn parse_tag(tag: &str) -> (r: Result<ParsedTag, TagError>)
    ensures
        tag_outcome(r, tag_parse(trimmed(tag@))),
{
    let t = trim_str(tag);
    parse_tag_content(t)
}

} // verus!
