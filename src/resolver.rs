use vstd::prelude::*;
use vstd::string::*;

use crate::cache::{
    cache_content, cache_ok, cached_dir, cached_names, create_cache_content, format_unalias_cmd_string,
    load_cache, names_of, unalias_command,
};
use crate::config::{
    alias_command, defs_view, format_execs_as_alias_cmd_string, get_executables_from_config_file,
    parse_config, Executable,
};
use crate::error::{Failure, MedusaError};
use crate::subtree::{get_is_subdirectory_of_cached_cwd, within};
use crate::cache::{is_record, record_prefix, CACHE_KEY};
use crate::config::{alias_clause, config_defs, config_lines, config_ok, definition_of, first_bad, strip_cr, well_formed_line,
};
use crate::text::{
    free_of, join, lemma_nonempty_keeps_free, lemma_split_join, lemma_split_pieces_free,
    lemma_split_pieces_keep_free, lines, split, views,
};

verus! {

/// What one invocation decides to do.
#[derive(Debug)]
pub enum ResolvedAction {
    /// Remove these aliases: the shell has left the directory they were
    /// installed for.
    Remove(Vec<String>),
    /// Nothing to do.
    NoOp,
    /// Install these aliases, read from the current directory's alias file.
    Install(Vec<Executable>),
}

/// The mathematical form of a [`ResolvedAction`].
pub enum ActionModel {
    Remove(Seq<Seq<char>>),
    NoOp,
    Install(Seq<(Seq<char>, Seq<char>)>),
}

impl View for ResolvedAction {
    type V = ActionModel;

    open spec fn view(&self) -> ActionModel {
        match self {
            ResolvedAction::Remove(n) => ActionModel::Remove(views(n@)),
            ResolvedAction::NoOp => ActionModel::NoOp,
            ResolvedAction::Install(d) => ActionModel::Install(defs_view(d@)),
        }
    }
}

/// The text of a file that may be absent.
pub open spec fn text_of(o: Option<&str>) -> Option<Seq<char>> {
    match o {
        Some(s) => Some(s@),
        None => None,
    }
}

/// The text of a string that may be absent.
pub open spec fn string_of(o: Option<String>) -> Option<Seq<char>> {
    match o {
        Some(s) => Some(s@),
        None => None,
    }
}

/// With no stale cache in the way: install what the alias file holds, or do
/// nothing when there is none.
pub open spec fn install_or_nothing(config: Option<Seq<char>>) -> Result<ActionModel, Failure> {
    match config {
        None => Ok(ActionModel::NoOp),
        Some(t) => match parse_config(t) {
            Ok(d) => Ok(ActionModel::Install(d)),
            Err(e) => Err(e),
        },
    }
}

/// The decision, in order of priority: a cache whose directory the shell has
/// left is removed; else with no alias file nothing happens; else the alias
/// file is installed.
pub open spec fn resolve_spec(cache: Option<Seq<char>>, cwd: Seq<char>, config: Option<Seq<char>>) -> Result<
    ActionModel,
    Failure,
> {
    match cache {
        Some(c) => if !cache_ok(c) {
            Err(Failure::MalformedCache)
        } else if !within(cwd, cached_dir(c)) {
            Ok(ActionModel::Remove(cached_names(c)))
        } else {
            install_or_nothing(config)
        },
        None => install_or_nothing(config),
    }
}

/// The shell text that carries out an action.
pub open spec fn output_of(a: ActionModel) -> Seq<char> {
    match a {
        ActionModel::Remove(n) => unalias_command(n),
        ActionModel::NoOp => Seq::<char>::empty(),
        ActionModel::Install(d) => alias_command(d),
    }
}

/// The new cache text an action writes, if any: only an installation writes.
pub open spec fn write_of(cwd: Seq<char>, a: ActionModel) -> Option<Seq<char>> {
    match a {
        ActionModel::Install(d) => Some(cache_content(cwd, names_of(d))),
        _ => None,
    }
}

/// A whole invocation: the shell text to print and the cache text to write.
pub open spec fn run_spec(cache: Option<Seq<char>>, cwd: Seq<char>, config: Option<Seq<char>>) -> Result<
    (Seq<char>, Option<Seq<char>>),
    Failure,
> {
    match resolve_spec(cache, cwd, config) {
        Ok(a) => Ok((output_of(a), write_of(cwd, a))),
        Err(e) => Err(e),
    }
}

/// What an invocation prints, and the cache text it writes, if any.
#[derive(Debug)]
pub struct Outcome {
    pub output: String,
    pub cache_content: Option<String>,
}

/// Decides what to do, given the session cache's text (if the cache exists),
/// the current directory and the alias file's text (if it exists).
pub fn resolve(cache_text: Option<&str>, cwd: &str, config_text: Option<&str>) -> (r: Result<
    ResolvedAction,
    MedusaError,
>)
    ensures
        match r {
            Ok(a) => resolve_spec(text_of(cache_text), cwd@, text_of(config_text)) == Ok::<
                ActionModel,
                Failure,
            >(a@),
            Err(e) => resolve_spec(text_of(cache_text), cwd@, text_of(config_text)) == Err::<
                ActionModel,
                Failure,
            >(e@),
        },
{
    match cache_text {
        Some(t) => {
            let cache = match load_cache(t) {
                Ok(c) => c,
                Err(e) => return Err(e),
            };
            if !get_is_subdirectory_of_cached_cwd(cwd, Some(cache.directory.as_str())) {
                return Ok(ResolvedAction::Remove(cache.alias_names));
            }
        },
        None => {},
    }
    match config_text {
        None => Ok(ResolvedAction::NoOp),
        Some(t) => match get_executables_from_config_file(t) {
            Ok(d) => Ok(ResolvedAction::Install(d)),
            Err(e) => Err(e),
        },
    }
}

/// Carries out the decision for the current directory `cwd`: the shell text
/// to print and, for an installation, the new cache text.
pub fn run(cache_text: Option<&str>, cwd: &str, config_text: Option<&str>) -> (r: Result<
    Outcome,
    MedusaError,
>)
    ensures
        match r {
            Ok(o) => run_spec(text_of(cache_text), cwd@, text_of(config_text)) == Ok::<
                (Seq<char>, Option<Seq<char>>),
                Failure,
            >((o.output@, string_of(o.cache_content))),
            Err(e) => run_spec(text_of(cache_text), cwd@, text_of(config_text)) == Err::<
                (Seq<char>, Option<Seq<char>>),
                Failure,
            >(e@),
        },
{
    match resolve(cache_text, cwd, config_text) {
        Err(e) => Err(e),
        Ok(ResolvedAction::Remove(names)) => {
            Ok(Outcome { output: format_unalias_cmd_string(&names), cache_content: None })
        },
        Ok(ResolvedAction::NoOp) => {
            let output = String::new();
            assert(output@ =~= Seq::<char>::empty());
            Ok(Outcome { output, cache_content: None })
        },
        Ok(ResolvedAction::Install(execs)) => {
            let content = create_cache_content(cwd, &execs);
            Ok(Outcome { output: format_execs_as_alias_cmd_string(execs), cache_content: Some(content) })
        },
    }
}

/// The names of a well-formed alias file's aliases hold neither `=` nor a
/// newline.
proof fn lemma_config_names_free(t: Seq<char>)
    requires
        config_ok(t),
    ensures
        forall|i: int| 0 <= i < names_of(config_defs(t)).len() ==> free_of(
            #[trigger] names_of(config_defs(t))[i],
            '=',
        ) && free_of(names_of(config_defs(t))[i], '\n'),
{
    lemma_split_pieces_free(t, '\n');
    let stripped = lines(t).map_values(|l: Seq<char>| strip_cr(l));
    assert forall|i: int| 0 <= i < stripped.len() implies free_of(#[trigger] stripped[i], '\n') by {
        assert(free_of(lines(t)[i], '\n'));
    }
    lemma_nonempty_keeps_free(stripped, '\n');
    let cl = config_lines(t);
    assert forall|i: int| 0 <= i < names_of(config_defs(t)).len() implies free_of(
        #[trigger] names_of(config_defs(t))[i],
        '=',
    ) && free_of(names_of(config_defs(t))[i], '\n') by {
        let l = cl[i];
        assert(well_formed_line(l));
        assert(free_of(l, '\n'));
        lemma_split_pieces_free(l, '=');
        lemma_split_pieces_keep_free(l, '=', '\n');
        assert(names_of(config_defs(t))[i] == split(l, '=')[0]);
    }
}

/// The record prefix holds no newline and ends with `=`.
proof fn lemma_record_prefix()
    ensures
        free_of(record_prefix(), '\n'),
        record_prefix().len() > 0,
        record_prefix().last() == '=',
{
    reveal_strlit("__session_cwd_key__");
    reveal_strlit("=");
    assert(CACHE_KEY@ == "__session_cwd_key__"@);
}

/// The lines of the cache text written for `cwd` and `names` are the record
/// followed by the names.
proof fn lemma_cache_lines(cwd: Seq<char>, names: Seq<Seq<char>>)
    requires
        free_of(cwd, '\n'),
        forall|i: int| 0 <= i < names.len() ==> free_of(#[trigger] names[i], '\n'),
    ensures
        lines(cache_content(cwd, names)) == seq![record_prefix() + cwd] + names,
{
    lemma_record_prefix();
    let xs = seq![record_prefix() + cwd] + names;
    assert forall|i: int| 0 <= i < xs.len() implies free_of(#[trigger] xs[i], '\n') by {
        if i == 0 {
            let f = record_prefix() + cwd;
            assert forall|j: int| 0 <= j < f.len() implies f[j] != '\n' by {
                if j < record_prefix().len() {
                    assert(f[j] == record_prefix()[j]);
                } else {
                    assert(f[j] == cwd[j - record_prefix().len()]);
                }
            }
        } else {
            assert(xs[i] == names[i - 1]);
        }
    }
    lemma_split_join(xs, '\n');
}

/// Installing a well-formed alias file with `N` aliases, wherever installation
/// is what the priority order picks: the output is exactly the `N`
/// `alias name="command"` clauses in file order, and the new cache has `N + 1`
/// lines, the directory record and then the names in file order.
pub proof fn lemma_install_shape(cache: Option<Seq<char>>, cwd: Seq<char>, config: Seq<char>)
    requires
        config_ok(config),
        free_of(cwd, '\n'),
        cache matches Some(c) ==> cache_ok(c) && within(cwd, cached_dir(c)),
    ensures
        ({
            let defs = config_defs(config);
            let clauses = defs.map_values(|d: (Seq<char>, Seq<char>)| alias_clause(d));
            let written = cache_content(cwd, names_of(defs));
            &&& run_spec(cache, cwd, Some(config)) == Ok::<(Seq<char>, Option<Seq<char>>), Failure>(
                (join(clauses, "; "@), Some(written)),
            )
            &&& clauses.len() == config_lines(config).len()
            &&& forall|i: int|
                0 <= i < clauses.len() ==> #[trigger] clauses[i] == alias_clause(
                    definition_of(config_lines(config)[i]),
                )
            &&& lines(written).len() == config_lines(config).len() + 1
            &&& lines(written)[0] == record_prefix() + cwd
            &&& forall|i: int|
                0 <= i < config_lines(config).len() ==> #[trigger] lines(written)[i + 1]
                    == definition_of(config_lines(config)[i]).0
        }),
{
    let defs = config_defs(config);
    lemma_config_names_free(config);
    lemma_cache_lines(cwd, names_of(defs));
    let written = cache_content(cwd, names_of(defs));
    assert forall|i: int| 0 <= i < config_lines(config).len() implies #[trigger] lines(written)[i + 1]
        == definition_of(config_lines(config)[i]).0 by {
        assert(lines(written)[i + 1] == names_of(defs)[i]);
    }
}

/// Installing twice in a row, with the same alias file and directory, the
/// second time against the cache that the first wrote, prints the same text
/// and writes the same cache.
pub proof fn lemma_install_idempotent(
    cache: Option<Seq<char>>,
    cwd: Seq<char>,
    config: Seq<char>,
    output: Seq<char>,
    written: Seq<char>,
)
    requires
        free_of(cwd, '\n'),
        run_spec(cache, cwd, Some(config)) == Ok::<(Seq<char>, Option<Seq<char>>), Failure>(
            (output, Some(written)),
        ),
    ensures
        run_spec(Some(written), cwd, Some(config)) == Ok::<(Seq<char>, Option<Seq<char>>), Failure>(
            (output, Some(written)),
        ),
{
    assert(config_ok(config));
    let defs = config_defs(config);
    let names = names_of(defs);
    assert(written == cache_content(cwd, names));
    lemma_config_names_free(config);
    lemma_cache_lines(cwd, names);
    lemma_record_prefix();
    let ls = lines(written);
    let p = record_prefix();
    assert((p + cwd).take(p.len() as int) =~= p);
    assert(is_record(ls[0]));
    assert forall|i: int| 1 <= i < ls.len() implies !is_record(#[trigger] ls[i]) by {
        assert(ls[i] == names[i - 1]);
        assert(free_of(names[i - 1], '='));
        if is_record(ls[i]) {
            assert(ls[i].take(p.len() as int)[p.len() - 1] == p[p.len() - 1]);
        }
    }
    assert(cache_ok(written));
    assert(cached_dir(written) =~= cwd);
}

/// With neither a cache nor an alias file, nothing is printed and nothing is
/// written.
pub proof fn lemma_nothing_to_do(cwd: Seq<char>)
    ensures
        run_spec(None, cwd, None) == Ok::<(Seq<char>, Option<Seq<char>>), Failure>(
            (Seq::<char>::empty(), None),
        ),
{
}

/// An alias file with a non-empty line that `=` does not split in exactly two
/// never leads to a cache write, whatever the cache and the directory: the
/// invocation either fails or prints a removal and writes nothing.
pub proof fn lemma_malformed_config_writes_nothing(
    cache: Option<Seq<char>>,
    cwd: Seq<char>,
    config: Seq<char>,
    i: int,
)
    requires
        0 <= i < config_lines(config).len(),
        split(config_lines(config)[i], '=').len() != 2,
    ensures
        run_spec(cache, cwd, Some(config)) matches Ok(o) ==> o.1 is None,
{
    assert(!well_formed_line(config_lines(config)[i]));
    assert(!config_ok(config));
}

/// Where installation is what the priority order picks (no cache, or a sound
/// one whose directory holds `cwd`), an alias file with a non-empty line that
/// `=` does not split in exactly two makes the invocation fail on the first
/// such line.
pub proof fn lemma_malformed_config_fails(
    cache: Option<Seq<char>>,
    cwd: Seq<char>,
    config: Seq<char>,
    i: int,
)
    requires
        0 <= i < config_lines(config).len(),
        split(config_lines(config)[i], '=').len() != 2,
        cache matches Some(c) ==> cache_ok(c) && within(cwd, cached_dir(c)),
    ensures
        run_spec(cache, cwd, Some(config)) == Err::<(Seq<char>, Option<Seq<char>>), Failure>(
            Failure::MalformedConfig(first_bad(config_lines(config))),
        ),
{
    assert(!well_formed_line(config_lines(config)[i]));
    assert(!config_ok(config));
}

} // verus!
