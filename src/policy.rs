//! Per-path merge policies given on the command line as `PATH=POLICY`.
use vstd::prelude::*;
use crate::text::{chars_of, find_char, lowercase, lowered, same_text, slice_chars, string_of, trim_str, trimmed};

verus! {

/// How an overlay value combines with the base value at one path.
#[derive(Debug, Clone, Copy, PartialEq, Eq, Structural)]
pub enum MergePolicy {
    /// Deep recursive merge (the default).
    Merge,
    /// The overlay value replaces the base value.
    Replace,
    /// The overlay sequence goes before the base sequence.
    Prepend,
}

/// The policy that a lower-case word names.
pub open spec fn policy_named(w: Seq<char>) -> Option<MergePolicy> {
    if w == "merge"@ {
        Some(MergePolicy::Merge)
    } else if w == "replace"@ {
        Some(MergePolicy::Replace)
    } else if w == "prepend"@ {
        Some(MergePolicy::Prepend)
    } else {
        None
    }
}

/// The message for a word that names no policy.
pub open spec fn bad_policy_text(w: Seq<char>) -> Seq<char> {
    "Invalid merge policy '"@ + w + "': expected merge, replace, or prepend"@
}

/// The message for an entry without `=`.
pub open spec fn bad_entry_text(s: Seq<char>) -> Seq<char> {
    "Invalid merge policy '"@ + s + "': expected format PATH=POLICY"@
}

impl MergePolicy {
    /// The policy named by a word that is already in lower case.
    pub fn from_lowercase(word: &str) -> (r: Option<MergePolicy>)
        ensures
            r == policy_named(word@),
    {
        if same_text(word, "merge") {
            Some(MergePolicy::Merge)
        } else if same_text(word, "replace") {
            Some(MergePolicy::Replace)
        } else if same_text(word, "prepend") {
            Some(MergePolicy::Prepend)
        } else {
            None
        }
    }

    /// The policy named by `s`, in any letter case.
    pub fn from_str(s: &str) -> (r: Result<MergePolicy, String>)
        ensures
            match policy_named(lowered(s@)) {
                Some(p) => r == Ok::<MergePolicy, String>(p),
                None => r is Err && r->Err_0@ == bad_policy_text(s@),
            },
    {
        let lower = lowercase(s);
        match MergePolicy::from_lowercase(lower.as_str()) {
            Some(p) => Ok(p),
            None => Err(String::from_str("Invalid merge policy '").concat(s).concat(
                "': expected merge, replace, or prepend",
            )),
        }
    }
}

/// A table from dot-paths (as written, counted from the merge root) to
/// policies. A later entry for the same path overrides an earlier one.
#[derive(Debug)]
pub struct PolicyTable {
    pub entries: Vec<(String, MergePolicy)>,
}

impl View for PolicyTable {
    type V = Seq<(Seq<char>, MergePolicy)>;

    open spec fn view(&self) -> Seq<(Seq<char>, MergePolicy)> {
        self.entries@.map_values(|e: (String, MergePolicy)| (e.0@, e.1))
    }
}

/// The policy for `path`: that of the last entry for it.
pub open spec fn policy_at(t: Seq<(Seq<char>, MergePolicy)>, path: Seq<char>) -> Option<MergePolicy>
    decreases t.len(),
{
    if t.len() == 0 {
        None
    } else if t.last().0 == path {
        Some(t.last().1)
    } else {
        policy_at(t.drop_last(), path)
    }
}

impl PolicyTable {
    /// A table with no entries.
    pub fn new() -> (r: PolicyTable)
        ensures
            r@ == Seq::<(Seq<char>, MergePolicy)>::empty(),
    {
        let r = PolicyTable { entries: Vec::new() };
        assert(r@ =~= Seq::<(Seq<char>, MergePolicy)>::empty());
        r
    }

    /// Set the policy for a path, overriding an earlier one.
    pub fn insert(&mut self, path: String, policy: MergePolicy)
        ensures
            final(self)@ == old(self)@.push((path@, policy)),
    {
        let ghost before = self@;
        self.entries.push((path, policy));
        assert(self@ =~= before.push((path@, policy)));
    }

    /// The policy for a path, if one was given.
    pub fn get(&self, path: &str) -> (r: Option<MergePolicy>)
        ensures
            r == policy_at(self@, path@),
    {
        let ghost t = self@;
        let mut found: Option<MergePolicy> = None;
        let mut i: usize = 0;
        assert(t.take(0) =~= Seq::<(Seq<char>, MergePolicy)>::empty());
        while i < self.entries.len()
            invariant
                0 <= i <= self.entries.len(),
                t == self@,
                found == policy_at(t.take(i as int), path@),
            decreases self.entries.len() - i,
        {
            assert(t.take(i + 1).drop_last() =~= t.take(i as int));
            assert(t.take(i + 1).last() == (self.entries@[i as int].0@, self.entries@[i as int].1));
            if same_text(self.entries[i].0.as_str(), path) {
                found = Some(self.entries[i].1);
            }
            i += 1;
        }
        assert(t.take(i as int) =~= t);
        found
    }
}

/// One `PATH=POLICY` entry: the path and the policy, both trimmed, or the
/// error message. Only the first `=` splits.
pub open spec fn entry_parse(s: Seq<char>) -> Result<(Seq<char>, MergePolicy), Seq<char>> {
    let k = find_char(s, '=');
    if k >= s.len() {
        Err(bad_entry_text(s))
    } else {
        let word = trimmed(s.skip(k + 1));
        match policy_named(lowered(word)) {
            Some(p) => Ok((trimmed(s.take(k)), p)),
            None => Err(bad_policy_text(word)),
        }
    }
}

/// All entries in order, or the message for the first bad one.
pub open spec fn entries_parse(specs: Seq<Seq<char>>) -> Result<Seq<(Seq<char>, MergePolicy)>, Seq<char>>
    decreases specs.len(),
{
    if specs.len() == 0 {
        Ok(Seq::empty())
    } else {
        match entries_parse(specs.drop_last()) {
            Err(e) => Err(e),
            Ok(t) => match entry_parse(specs.last()) {
                Err(e) => Err(e),
                Ok(p) => Ok(t.push(p)),
            },
        }
    }
}

proof fn lemma_entries_parse_error(s: Seq<Seq<char>>, n: int)
    requires
        0 <= n <= s.len(),
        entries_parse(s.take(n)) is Err,
    ensures
        entries_parse(s) == entries_parse(s.take(n)),
    decreases s.len(),
{
    if n < s.len() {
        assert(s.drop_last().take(n) =~= s.take(n));
        lemma_entries_parse_error(s.drop_last(), n);
    } else {
        assert(s.take(n) =~= s);
    }
}

fn parse_entry(spec: &str) -> (r: Result<(String, MergePolicy), String>)
    ensures
        match entry_parse(spec@) {
            Ok(p) => r is Ok && r->Ok_0.0@ == p.0 && r->Ok_0.1 == p.1,
            Err(e) => r is Err && r->Err_0@ == e,
        },
{
    let cs = chars_of(spec);
    proof {
        crate::text::lemma_find_char(cs@, '=');
    }
    let k = crate::text::first_index_of(&cs, '=');
    if k >= cs.len() {
        return Err(String::from_str("Invalid merge policy '").concat(spec).concat(
            "': expected format PATH=POLICY",
        ));
    }
    let head = string_of(&slice_chars(&cs, 0, k));
    let tail = string_of(&slice_chars(&cs, k + 1, cs.len()));
    assert(head@ == spec@.take(k as int));
    assert(tail@ == spec@.skip(k + 1));
    let path = trim_str(head.as_str());
    let word = trim_str(tail.as_str());
    match MergePolicy::from_str(word) {
        Ok(p) => Ok((string_of(&chars_of(path)), p)),
        Err(e) => Err(e),
    }
}

/// Parse `PATH=POLICY` entries (policy words in any letter case) into a
/// table; the first malformed entry is reported.
pub fn parse_merge_policies(args: Option<&Vec<String>>) -> (r: Result<PolicyTable, String>)
    ensures
        match args {
            None => r is Ok && r->Ok_0@ == Seq::<(Seq<char>, MergePolicy)>::empty(),
            Some(specs) => match entries_parse(specs@.map_values(|s: String| s@)) {
                Ok(t) => r is Ok && r->Ok_0@ == t,
                Err(e) => r is Err && r->Err_0@ == e,
            },
        },
{
    let mut policies = PolicyTable::new();
    let specs = match args {
        None => {
            return Ok(policies);
        },
        Some(specs) => specs,
    };
    let ghost all = specs@.map_values(|s: String| s@);
    let mut i: usize = 0;
    assert(all.take(0) =~= Seq::<Seq<char>>::empty());
    while i < specs.len()
        invariant
            0 <= i <= specs.len(),
            all == specs@.map_values(|s: String| s@),
            args == Some(specs),
            entries_parse(all.take(i as int)) == Ok::<Seq<(Seq<char>, MergePolicy)>, Seq<char>>(policies@),
        decreases specs.len() - i,
    {
        assert(all.take(i + 1).drop_last() =~= all.take(i as int));
        assert(all.take(i + 1).last() == specs@[i as int]@);
        match parse_entry(specs[i].as_str()) {
            Ok((path, policy)) => {
                policies.insert(path, policy);
            },
            Err(e) => {
                proof {
                    lemma_entries_parse_error(all, i + 1);
                }
                return Err(e);
            },
        }
        i += 1;
    }
    assert(all.take(i as int) =~= all);
    Ok(policies)
}

} // verus!
