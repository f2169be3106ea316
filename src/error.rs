//! Errors of path resolution and mutation.
use vstd::prelude::*;
use crate::tag::{op_name, tag_error_text, MergeOp, TagError, TagFault};
use crate::text::{decimal_string, decimal_text};

verus! {

/// Why a path could not be followed in a tree.
#[derive(Debug)]
pub enum PathError {
    /// A sequence was addressed with a segment that is not an integer.
    NonIntegerIndex { path: String, segment: String },
    /// A sequence index beyond either end.
    IndexOutOfRange { path: String, index: i64, len: usize },
    /// A mapping has no entry under the key.
    MissingKey { path: String, key: String },
    /// More segments remain, but the node reached is a scalar.
    CannotTraverseScalar { path: String, segment: String },
    /// The last segment addresses a scalar, which cannot take an entry.
    CannotSetOnScalar { path: String, segment: String },
    /// The last segment addresses a scalar, which holds nothing to delete.
    CannotDeleteFromScalar { path: String },
    /// The path is empty where a node inside the tree is needed.
    EmptyPath,
    /// The document is empty, so nothing can be deleted from it.
    EmptyDocument,
}

/// The model of a `PathError`.
pub enum PathFault {
    NonIntegerIndex(Seq<char>, Seq<char>),
    IndexOutOfRange(Seq<char>, int, int),
    MissingKey(Seq<char>, Seq<char>),
    CannotTraverseScalar(Seq<char>, Seq<char>),
    CannotSetOnScalar(Seq<char>, Seq<char>),
    CannotDeleteFromScalar(Seq<char>),
    EmptyPath,
    EmptyDocument,
}

impl View for PathError {
    type V = PathFault;

    open spec fn view(&self) -> PathFault {
        match self {
            PathError::NonIntegerIndex { path, segment } => PathFault::NonIntegerIndex(path@, segment@),
            PathError::IndexOutOfRange { path, index, len } => PathFault::IndexOutOfRange(
                path@,
                *index as int,
                *len as int,
            ),
            PathError::MissingKey { path, key } => PathFault::MissingKey(path@, key@),
            PathError::CannotTraverseScalar { path, segment } => PathFault::CannotTraverseScalar(
                path@,
                segment@,
            ),
            PathError::CannotSetOnScalar { path, segment } => PathFault::CannotSetOnScalar(
                path@,
                segment@,
            ),
            PathError::CannotDeleteFromScalar { path } => PathFault::CannotDeleteFromScalar(path@),
            PathError::EmptyPath => PathFault::EmptyPath,
            PathError::EmptyDocument => PathFault::EmptyDocument,
        }
    }
}

/// The sentence that describes a path error.
pub open spec fn path_error_text(e: PathFault) -> Seq<char> {
    match e {
        PathFault::NonIntegerIndex(p, s) => "invalid path '"@ + p + "', non-integer index '"@ + s
            + "' provided on a sequence."@,
        PathFault::IndexOutOfRange(p, i, n) => "invalid path '"@ + p + "', index "@ + decimal_text(i)
            + " is out of range ("@ + decimal_text(n) + " elements in sequence)."@,
        PathFault::MissingKey(p, k) => "invalid path '"@ + p + "', missing key '"@ + k
            + "' in struct."@,
        PathFault::CannotTraverseScalar(p, s) => "invalid path '"@ + p
            + "', cannot traverse scalar at '"@ + s + "'."@,
        PathFault::CannotSetOnScalar(p, s) => "invalid path '"@ + p
            + "', cannot set value on scalar at '"@ + s + "'."@,
        PathFault::CannotDeleteFromScalar(p) => "invalid path '"@ + p
            + "', cannot delete from scalar."@,
        PathFault::EmptyPath => "Empty path"@,
        PathFault::EmptyDocument => "Cannot delete from empty document"@,
    }
}

impl PathError {
    /// A sentence that describes the error, naming the path and the segment.
    pub fn to_string(&self) -> (r: String)
        ensures
            r@ == path_error_text(self@),
    {
        match self {
            PathError::NonIntegerIndex { path, segment } => String::from_str("invalid path '").concat(
                path.as_str(),
            ).concat("', non-integer index '").concat(segment.as_str()).concat(
                "' provided on a sequence.",
            ),
            PathError::IndexOutOfRange { path, index, len } => {
                let i = decimal_string(*index as i128);
                let n = decimal_string(*len as i128);
                String::from_str("invalid path '").concat(path.as_str()).concat("', index ").concat(
                    i.as_str(),
                ).concat(" is out of range (").concat(n.as_str()).concat(" elements in sequence).")
            },
            PathError::MissingKey { path, key } => String::from_str("invalid path '").concat(
                path.as_str(),
            ).concat("', missing key '").concat(key.as_str()).concat("' in struct."),
            PathError::CannotTraverseScalar { path, segment } => String::from_str(
                "invalid path '",
            ).concat(path.as_str()).concat("', cannot traverse scalar at '").concat(
                segment.as_str(),
            ).concat("'."),
            PathError::CannotSetOnScalar { path, segment } => String::from_str(
                "invalid path '",
            ).concat(path.as_str()).concat("', cannot set value on scalar at '").concat(
                segment.as_str(),
            ).concat("'."),
            PathError::CannotDeleteFromScalar { path } => String::from_str("invalid path '").concat(
                path.as_str(),
            ).concat("', cannot delete from scalar."),
            PathError::EmptyPath => String::from_str("Empty path"),
            PathError::EmptyDocument => String::from_str("Cannot delete from empty document"),
        }
    }
}

/// A query that reads a container.
#[derive(Debug, Clone, Copy, PartialEq, Eq, Structural)]
pub enum Operation {
    GetLength,
    Keys,
    Values,
    KeyValues,
    GetValues,
}

/// An operation met a node of a shape it cannot handle.
#[derive(Debug)]
pub enum TypeError {
    /// A query reached a node that is not a container it reads; holds the
    /// type name of that node.
    Unsupported { operation: Operation, found: String },
    /// An `append` or `prepend` directive on a node that is not a sequence.
    DirectiveShape { path: String, op: MergeOp, kind: String },
    /// Two nodes of shapes that do not merge.
    Mismatch { path: String, base_kind: String, overlay_kind: String },
}

/// The model of a `TypeError`.
pub enum TypeFault {
    Unsupported(Operation, Seq<char>),
    DirectiveShape(Seq<char>, MergeOp, Seq<char>),
    Mismatch(Seq<char>, Seq<char>, Seq<char>),
}

impl View for TypeError {
    type V = TypeFault;

    open spec fn view(&self) -> TypeFault {
        match self {
            TypeError::Unsupported { operation, found } => TypeFault::Unsupported(
                *operation,
                found@,
            ),
            TypeError::DirectiveShape { path, op, kind } => TypeFault::DirectiveShape(
                path@,
                *op,
                kind@,
            ),
            TypeError::Mismatch { path, base_kind, overlay_kind } => TypeFault::Mismatch(
                path@,
                base_kind@,
                overlay_kind@,
            ),
        }
    }
}

/// The command name of a query.
pub open spec fn operation_name(op: Operation) -> Seq<char> {
    match op {
        Operation::GetLength => "get-length"@,
        Operation::Keys => "keys"@,
        Operation::Values => "values"@,
        Operation::KeyValues => "key-values"@,
        Operation::GetValues => "get-values"@,
    }
}

/// What a query asks to be given instead.
pub open spec fn wanted_shapes(op: Operation) -> Seq<char> {
    match op {
        Operation::GetLength | Operation::GetValues => "sequence or struct"@,
        _ => "struct"@,
    }
}

/// Where in the tree a merge error happened.
pub open spec fn location_text(path: Seq<char>) -> Seq<char> {
    if path.len() == 0 {
        "at root"@
    } else {
        "at '"@ + path + "'"@
    }
}

/// The sentence that describes a type error.
pub open spec fn type_error_text(e: TypeFault) -> Seq<char> {
    match e {
        TypeFault::Unsupported(op, t) => operation_name(op) + " does not support '"@ + t
            + "' type. Please provide or select a "@ + wanted_shapes(op) + "."@,
        TypeFault::DirectiveShape(p, op, k) => "Invalid merge directive "@ + location_text(p)
            + ": !merge:"@ + op_name(op) + " can only be used on sequences, got "@ + k,
        TypeFault::Mismatch(p, b, o) => "Type mismatch "@ + location_text(p) + ": cannot merge "@
            + b + " with "@ + o,
    }
}

fn location_string(path: &String) -> (r: String)
    ensures
        r@ == location_text(path@),
{
    if path.as_str().unicode_len() == 0 {
        String::from_str("at root")
    } else {
        String::from_str("at '").concat(path.as_str()).concat("'")
    }
}

impl Operation {
    /// The command name of the query.
    pub fn name(&self) -> (r: String)
        ensures
            r@ == operation_name(*self),
    {
        match self {
            Operation::GetLength => String::from_str("get-length"),
            Operation::Keys => String::from_str("keys"),
            Operation::Values => String::from_str("values"),
            Operation::KeyValues => String::from_str("key-values"),
            Operation::GetValues => String::from_str("get-values"),
        }
    }
}

impl TypeError {
    /// A sentence that describes the error, naming both shapes or the
    /// expected one, and the place.
    pub fn to_string(&self) -> (r: String)
        ensures
            r@ == type_error_text(self@),
    {
        match self {
            TypeError::Unsupported { operation, found } => {
                let wanted = match operation {
                    Operation::GetLength | Operation::GetValues => "sequence or struct",
                    _ => "struct",
                };
                operation.name().concat(" does not support '").concat(found.as_str()).concat(
                    "' type. Please provide or select a ",
                ).concat(wanted).concat(".")
            },
            TypeError::DirectiveShape { path, op, kind } => String::from_str(
                "Invalid merge directive ",
            ).concat(location_string(path).as_str()).concat(": !merge:").concat(
                op.to_string().as_str(),
            ).concat(" can only be used on sequences, got ").concat(kind.as_str()),
            TypeError::Mismatch { path, base_kind, overlay_kind } => String::from_str(
                "Type mismatch ",
            ).concat(location_string(path).as_str()).concat(": cannot merge ").concat(
                base_kind.as_str(),
            ).concat(" with ").concat(overlay_kind.as_str()),
        }
    }
}

/// An error of a query, a mutation or a merge.
#[derive(Debug)]
pub enum Error {
    Path(PathError),
    Type(TypeError),
    Tag(TagError),
}

/// The model of an `Error`.
pub enum Fault {
    Path(PathFault),
    Type(TypeFault),
    Tag(TagFault),
}

impl View for Error {
    type V = Fault;

    open spec fn view(&self) -> Fault {
        match self {
            Error::Path(e) => Fault::Path(e@),
            Error::Type(e) => Fault::Type(e@),
            Error::Tag(e) => Fault::Tag(e@),
        }
    }
}

/// The sentence that describes an error.
pub open spec fn error_text(e: Fault) -> Seq<char> {
    match e {
        Fault::Path(f) => path_error_text(f),
        Fault::Type(f) => type_error_text(f),
        Fault::Tag(f) => tag_error_text(f),
    }
}

impl Error {
    /// A sentence that describes the error.
    pub fn to_string(&self) -> (r: String)
        ensures
            r@ == error_text(self@),
    {
        match self {
            Error::Path(e) => e.to_string(),
            Error::Type(e) => e.to_string(),
            Error::Tag(e) => e.to_string(),
        }
    }
}

} // verus!
