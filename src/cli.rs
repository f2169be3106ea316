//! The command line's data and the decisions made on it: which action a
//! command names, how its output is separated, and how a compound command
//! line splits into commands.
use vstd::prelude::*;
use crate::text::same_text;

verus! {

/// What separates output items.
#[derive(Clone, Copy, Debug, PartialEq, Eq, Structural)]
pub enum Separator {
    /// One item per line.
    Newline,
    /// Items terminated by a NUL character (the `-0` commands).
    Nul,
}

impl Separator {
    /// The separator text.
    pub fn as_str(&self) -> (r: &'static str)
        ensures
            r@ == (match *self {
                Separator::Newline => "\n"@,
                Separator::Nul => "\0"@,
            }),
    {
        match self {
            Separator::Newline => "\n",
            Separator::Nul => "\0",
        }
    }
}

/// How query results are written.
#[derive(Clone, Copy, Debug, PartialEq, Eq, Structural)]
pub struct OutputPolicy {
    pub separator: Separator,
    /// Strict YAML when true; raw scalars otherwise.
    pub yaml_mode: bool,
}

impl OutputPolicy {
    /// Newline-separated output.
    pub fn newline(yaml_mode: bool) -> (r: OutputPolicy)
        ensures
            r == (OutputPolicy { separator: Separator::Newline, yaml_mode }),
    {
        OutputPolicy { separator: Separator::Newline, yaml_mode }
    }

    /// NUL-terminated output.
    pub fn nul(yaml_mode: bool) -> (r: OutputPolicy)
        ensures
            r == (OutputPolicy { separator: Separator::Nul, yaml_mode }),
    {
        OutputPolicy { separator: Separator::Nul, yaml_mode }
    }
}

/// The global options and the action of one command.
#[derive(Debug)]
pub struct Args {
    pub color: bool,
    pub no_color: bool,
    pub version: bool,
    pub log_time: bool,
    pub verbose: u8,
    pub log: Option<Vec<String>>,
    pub quiet: bool,
    pub yaml: bool,
    pub action: Option<Actions>,
}

/// The actions of the command line.
#[derive(Debug)]
pub enum Actions {
    GetValue { path: Option<String>, default: Option<String>, yaml: bool, line_buffer: bool },
    GetType { path: Option<String> },
    GetLength { path: Option<String> },
    Keys { path: Option<String>, yaml: bool },
    Keys0 { path: Option<String>, yaml: bool },
    Values { path: Option<String>, yaml: bool },
    Values0 { path: Option<String>, yaml: bool },
    KeyValues { path: Option<String>, yaml: bool },
    KeyValues0 { path: Option<String>, yaml: bool },
    GetValues { path: Option<String>, yaml: bool },
    GetValues0 { path: Option<String>, yaml: bool },
    Apply { merge_policy: Option<Vec<String>>, overlays: Vec<String> },
    SetValue { key: String, value: String, yaml: bool },
    Del { key: String },
}

/// The kind of an iterating query.
#[derive(Clone, Copy, Debug, PartialEq, Eq, Structural)]
pub enum IterKind {
    Keys,
    Values,
    KeyValues,
    GetValues,
}

/// An iterating query with its path and output policy.
#[derive(Debug)]
pub struct IterAction {
    pub kind: IterKind,
    pub path: Option<String>,
    pub policy: OutputPolicy,
}

/// The iterating query that an action names: its kind, its path, and
/// whether its output is NUL-terminated (the `-0` variants); `None` for the
/// other actions.
pub open spec fn iter_shape(action: Actions) -> Option<(IterKind, Option<String>, bool, bool)> {
    match action {
        Actions::Keys { path, yaml } => Some((IterKind::Keys, path, false, yaml)),
        Actions::Keys0 { path, yaml } => Some((IterKind::Keys, path, true, yaml)),
        Actions::Values { path, yaml } => Some((IterKind::Values, path, false, yaml)),
        Actions::Values0 { path, yaml } => Some((IterKind::Values, path, true, yaml)),
        Actions::KeyValues { path, yaml } => Some((IterKind::KeyValues, path, false, yaml)),
        Actions::KeyValues0 { path, yaml } => Some((IterKind::KeyValues, path, true, yaml)),
        Actions::GetValues { path, yaml } => Some((IterKind::GetValues, path, false, yaml)),
        Actions::GetValues0 { path, yaml } => Some((IterKind::GetValues, path, true, yaml)),
        _ => None,
    }
}

pub open spec fn same_path(a: Option<String>, b: Option<String>) -> bool {
    match (a, b) {
        (Some(x), Some(y)) => x@ == y@,
        (None, None) => true,
        _ => false,
    }
}

fn copy_path(p: &Option<String>) -> (r: Option<String>)
    ensures
        same_path(r, *p),
{
    match p {
        Some(s) => Some(s.clone()),
        None => None,
    }
}

/// The iterating query that an action names, with the output in YAML when
/// either the global option or the action's own asks for it.
pub fn normalize_iter_action(action: &Actions, base_yaml_mode: bool) -> (r: Option<IterAction>)
    ensures
        match iter_shape(*action) {
            None => r is None,
            Some((kind, path, nul, yaml)) => r is Some && r->Some_0.kind == kind && same_path(
                r->Some_0.path,
                path,
            ) && r->Some_0.policy == (OutputPolicy {
                separator: if nul {
                    Separator::Nul
                } else {
                    Separator::Newline
                },
                yaml_mode: base_yaml_mode || yaml,
            }),
        },
{
    let (kind, path, nul, yaml) = match action {
        Actions::Keys { path, yaml } => (IterKind::Keys, path, false, *yaml),
        Actions::Keys0 { path, yaml } => (IterKind::Keys, path, true, *yaml),
        Actions::Values { path, yaml } => (IterKind::Values, path, false, *yaml),
        Actions::Values0 { path, yaml } => (IterKind::Values, path, true, *yaml),
        Actions::KeyValues { path, yaml } => (IterKind::KeyValues, path, false, *yaml),
        Actions::KeyValues0 { path, yaml } => (IterKind::KeyValues, path, true, *yaml),
        Actions::GetValues { path, yaml } => (IterKind::GetValues, path, false, *yaml),
        Actions::GetValues0 { path, yaml } => (IterKind::GetValues, path, true, *yaml),
        _ => {
            return None;
        },
    };
    let policy = if nul {
        OutputPolicy::nul(base_yaml_mode || yaml)
    } else {
        OutputPolicy::newline(base_yaml_mode || yaml)
    };
    Some(IterAction { kind, path: copy_path(path), policy })
}

/// Whether the action only reads the document.
pub open spec fn reads_only(action: Option<Actions>) -> bool {
    match action {
        Some(Actions::GetValue { .. }) | Some(Actions::GetType { .. }) | Some(
            Actions::GetLength { .. },
        ) => true,
        Some(a) => iter_shape(a) is Some,
        None => false,
    }
}

/// Whether the action only reads the document.
pub fn is_readonly_action(action: &Option<Actions>) -> (r: bool)
    ensures
        r == reads_only(*action),
{
    match action {
        Some(Actions::GetValue { .. }) | Some(Actions::GetType { .. }) | Some(
            Actions::GetLength { .. },
        ) | Some(Actions::Keys { .. }) | Some(Actions::Keys0 { .. }) | Some(Actions::Values { .. })
        | Some(Actions::Values0 { .. }) | Some(Actions::KeyValues { .. }) | Some(
            Actions::KeyValues0 { .. },
        ) | Some(Actions::GetValues { .. }) | Some(Actions::GetValues0 { .. }) => true,
        _ => false,
    }
}

/// Whether output is flushed after each document: `get-value -L`.
pub fn is_line_buffered(cli: &Args) -> (r: bool)
    ensures
        r == (cli.action matches Some(Actions::GetValue { line_buffer, .. }) && line_buffer),
{
    match &cli.action {
        Some(Actions::GetValue { line_buffer, .. }) => *line_buffer,
        _ => false,
    }
}

/// Whether output is strict YAML: the global `-y`, or `get-value -y`.
pub fn is_yaml_output(cli: &Args) -> (r: bool)
    ensures
        r == (cli.yaml || (cli.action matches Some(Actions::GetValue { yaml, .. }) && yaml)),
{
    if cli.yaml {
        return true;
    }
    match &cli.action {
        Some(Actions::GetValue { yaml, .. }) => *yaml,
        _ => false,
    }
}

/// Splitting the arguments `rest` (after the program name) into commands at
/// each `;`, given the command read so far and the commands completed. An
/// empty command is dropped; each command starts with the program name.
pub open spec fn groups_from(
    rest: Seq<Seq<char>>,
    program: Seq<char>,
    current: Seq<Seq<char>>,
    done: Seq<Seq<Seq<char>>>,
) -> Seq<Seq<Seq<char>>>
    decreases rest.len(),
{
    if rest.len() == 0 {
        if current.len() > 0 {
            done.push(seq![program] + current)
        } else {
            done
        }
    } else if rest[0] == ";"@ {
        groups_from(
            rest.drop_first(),
            program,
            Seq::empty(),
            if current.len() > 0 {
                done.push(seq![program] + current)
            } else {
                done
            },
        )
    } else {
        groups_from(rest.drop_first(), program, current.push(rest[0]), done)
    }
}

/// The commands of a command line: the program name and the arguments
/// between `;` separators. An empty line has no command.
pub open spec fn command_groups(args: Seq<Seq<char>>) -> Seq<Seq<Seq<char>>> {
    if args.len() > 0 {
        groups_from(args.drop_first(), args[0], Seq::empty(), Seq::empty())
    } else {
        Seq::empty()
    }
}

pub open spec fn strings(v: Seq<String>) -> Seq<Seq<char>> {
    v.map_values(|s: String| s@)
}

pub open spec fn string_groups(v: Seq<Vec<String>>) -> Seq<Seq<Seq<char>>> {
    v.map_values(|g: Vec<String>| strings(g@))
}

fn make_group(program: &String, current: &Vec<String>) -> (r: Vec<String>)
    ensures
        strings(r@) == seq![program@] + strings(current@),
{
    let mut g: Vec<String> = Vec::new();
    g.push(program.clone());
    let mut i: usize = 0;
    while i < current.len()
        invariant
            0 <= i <= current.len(),
            strings(g@) == seq![program@] + strings(current@).take(i as int),
        decreases current.len() - i,
    {
        let ghost before = strings(g@);
        g.push(current[i].clone());
        assert(strings(g@) =~= before.push(current@[i as int]@));
        assert(strings(current@).take(i + 1) =~= strings(current@).take(i as int).push(current@[i as int]@));
        i += 1;
    }
    assert(strings(current@).take(i as int) =~= strings(current@));
    g
}

/// Split a command line into commands at each `;` argument; each command
/// gets the program name in front, and empty commands are dropped.
pub fn split_compound_args(args: Vec<String>) -> (r: Vec<Vec<String>>)
    ensures
        string_groups(r@) == command_groups(strings(args@)),
{
    let ghost all = strings(args@);
    let mut groups: Vec<Vec<String>> = Vec::new();
    let mut current: Vec<String> = Vec::new();
    let mut i: usize = 1;
    if args.len() == 0 {
        return groups;
    }
    let program = args[0].clone();
    assert(all.drop_first() =~= all.skip(1));
    assert(string_groups(groups@) =~= Seq::<Seq<Seq<char>>>::empty());
    assert(strings(current@) =~= Seq::<Seq<char>>::empty());
    while i < args.len()
        invariant
            i <= args.len(),
            all == strings(args@),
            groups_from(all.skip(i as int), program@, strings(current@), string_groups(groups@))
                == command_groups(all),
        decreases args.len() - i,
    {
        assert(all.skip(i as int).drop_first() =~= all.skip(i + 1));
        assert(all.skip(i as int)[0] == args@[i as int]@);
        if same_text(args[i].as_str(), ";") {
            if current.len() > 0 {
                let ghost before = string_groups(groups@);
                let g = make_group(&program, &current);
                groups.push(g);
                assert(string_groups(groups@) =~= before.push(seq![program@] + strings(current@)));
            }
            current = Vec::new();
            assert(strings(current@) =~= Seq::<Seq<char>>::empty());
        } else {
            let ghost before = strings(current@);
            current.push(args[i].clone());
            assert(strings(current@) =~= before.push(args@[i as int]@));
        }
        i += 1;
    }
    assert(all.skip(i as int) =~= Seq::<Seq<char>>::empty());
    if current.len() > 0 {
        let ghost before = string_groups(groups@);
        let g = make_group(&program, &current);
        groups.push(g);
        assert(string_groups(groups@) =~= before.push(seq![program@] + strings(current@)));
    }
    groups
}

} // verus!
