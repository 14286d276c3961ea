use vstd::prelude::*;
use vstd::string::*;

use crate::config::{defs_view, Executable};
use crate::error::{Failure, MedusaError};
use crate::text::{has_prefix, join, join_strings, lemma_split_nonempty, lines, split_text, views};

verus! {

/// The key of the record that holds the directory a cache was written for.
pub const CACHE_KEY: &'static str = "__session_cwd_key__";

/// What a directory record starts with: the key and `=`.
pub open spec fn record_prefix() -> Seq<char> {
    CACHE_KEY@ + "="@
}

/// A line that starts with the record prefix is a directory record.
pub open spec fn is_record(l: Seq<char>) -> bool {
    record_prefix().len() <= l.len() && l.take(record_prefix().len() as int) == record_prefix()
}

/// A cache is sound when its first line is the directory record and no other
/// line is one. The record's key ends at its first `=`: everything after it is
/// the directory, which may itself hold `=`, as a path may.
pub open spec fn cache_ok(t: Seq<char>) -> bool {
    &&& is_record(lines(t)[0])
    &&& forall|i: int| 1 <= i < lines(t).len() ==> !is_record(#[trigger] lines(t)[i])
}

/// The directory a sound cache was written for.
pub open spec fn cached_dir(t: Seq<char>) -> Seq<char> {
    lines(t)[0].skip(record_prefix().len() as int)
}

/// The alias names of a sound cache: all its lines after the first.
pub open spec fn cached_names(t: Seq<char>) -> Seq<Seq<char>> {
    lines(t).skip(1)
}

/// What reading a cache yields: its directory and alias names.
pub open spec fn parse_cache(t: Seq<char>) -> Result<(Seq<char>, Seq<Seq<char>>), Failure> {
    if cache_ok(t) {
        Ok((cached_dir(t), cached_names(t)))
    } else {
        Err(Failure::MalformedCache)
    }
}

/// The cache text recorded for directory `cwd` and aliases `names`: the
/// directory record, then one name per line.
pub open spec fn cache_content(cwd: Seq<char>, names: Seq<Seq<char>>) -> Seq<char> {
    join(seq![record_prefix() + cwd] + names, seq!['\n'])
}

pub open spec fn unalias_clause(name: Seq<char>) -> Seq<char> {
    "unalias "@ + name
}

/// The shell text that removes `names`, in order.
pub open spec fn unalias_command(names: Seq<Seq<char>>) -> Seq<char> {
    join(names.map_values(|n: Seq<char>| unalias_clause(n)), "; "@)
}

/// The names of `defs`, in order.
pub open spec fn names_of(defs: Seq<(Seq<char>, Seq<char>)>) -> Seq<Seq<char>> {
    defs.map_values(|d: (Seq<char>, Seq<char>)| d.0)
}

/// A per-session record of the aliases that are installed, and where.
#[derive(Debug)]
pub struct SessionCache {
    pub directory: String,
    pub alias_names: Vec<String>,
}

fn record_prefix_string() -> (r: String)
    ensures
        r@ == record_prefix(),
{
    let mut p = String::from_str(CACHE_KEY);
    p.append("=");
    p
}

/// Reads a cache's text.
pub fn load_cache(text: &str) -> (r: Result<SessionCache, MedusaError>)
    ensures
        match r {
            Ok(c) => parse_cache(text@) == Ok::<(Seq<char>, Seq<Seq<char>>), Failure>(
                (c.directory@, views(c.alias_names@)),
            ),
            Err(e) => parse_cache(text@) == Err::<(Seq<char>, Seq<Seq<char>>), Failure>(e@),
        },
{
    let ls = split_text(text, '\n');
    proof {
        lemma_split_nonempty(text@, '\n');
    }
    let ghost tl = lines(text@);
    assert(ls@[0]@ == tl[0]);
    let prefix = record_prefix_string();
    if !has_prefix(ls[0].as_str(), prefix.as_str()) {
        return Err(MedusaError::MalformedCache);
    }
    let first = ls[0].as_str();
    let directory = String::from_str(first.substring_char(prefix.unicode_len(), first.unicode_len()));
    assert(directory@ =~= cached_dir(text@));
    let mut names: Vec<String> = Vec::new();
    let mut i: usize = 1;
    assert(tl.skip(1).take(0) =~= Seq::<Seq<char>>::empty());
    assert(views(names@) =~= Seq::<Seq<char>>::empty());
    while i < ls.len()
        invariant
            views(ls@) == tl,
            tl == lines(text@),
            prefix@ == record_prefix(),
            1 <= i <= ls@.len(),
            forall|j: int| 1 <= j < i ==> !is_record(#[trigger] tl[j]),
            views(names@) == tl.skip(1).take(i - 1),
        decreases ls@.len() - i,
    {
        assert(tl[i as int] == ls@[i as int]@);
        if has_prefix(ls[i].as_str(), prefix.as_str()) {
            return Err(MedusaError::MalformedCache);
        }
        assert(tl.skip(1).take(i as int) =~= tl.skip(1).take(i - 1).push(tl[i as int]));
        let ghost before = names@;
        names.push(ls[i].clone());
        assert(views(names@) =~= views(before).push(tl[i as int]));
        i = i + 1;
    }
    assert(tl.skip(1).take(tl.len() - 1) =~= tl.skip(1));
    Ok(SessionCache { directory, alias_names: names })
}

/// The directory a cache's text was recorded for.
pub fn get_cached_cwd(text: &str) -> (r: Result<String, MedusaError>)
    ensures
        cache_ok(text@) <==> r is Ok,
        r matches Ok(d) ==> d@ == cached_dir(text@),
        r matches Err(e) ==> e is MalformedCache,
{
    match load_cache(text) {
        Ok(c) => Ok(c.directory),
        Err(e) => Err(e),
    }
}

/// One `unalias name` clause for each alias that a cache's text records.
pub fn get_current_set_aliases(text: &str) -> (r: Result<Vec<String>, MedusaError>)
    ensures
        cache_ok(text@) <==> r is Ok,
        r matches Ok(v) ==> views(v@) == cached_names(text@).map_values(
            |n: Seq<char>| unalias_clause(n),
        ),
        r matches Err(e) ==> e is MalformedCache,
{
    match load_cache(text) {
        Ok(c) => Ok(unalias_clauses(&c.alias_names)),
        Err(e) => Err(e),
    }
}

fn unalias_clauses(names: &Vec<String>) -> (r: Vec<String>)
    ensures
        views(r@) == views(names@).map_values(|n: Seq<char>| unalias_clause(n)),
{
    let mut r: Vec<String> = Vec::new();
    let mut i: usize = 0;
    while i < names.len()
        invariant
            i <= names@.len(),
            views(r@) == views(names@).take(i as int).map_values(|n: Seq<char>| unalias_clause(n)),
        decreases names@.len() - i,
    {
        let mut c = String::from_str("unalias ");
        c.append(names[i].as_str());
        let ghost before = r@;
        r.push(c);
        assert(views(r@) =~= views(before).push(unalias_clause(names@[i as int]@)));
        assert(views(names@).take(i as int + 1).map_values(|n: Seq<char>| unalias_clause(n))
            =~= views(names@).take(i as int).map_values(|n: Seq<char>| unalias_clause(n)).push(
            unalias_clause(names@[i as int]@),
        ));
        i = i + 1;
    }
    assert(views(names@).take(names@.len() as int) =~= views(names@));
    r
}

/// The shell text that removes `names`: one `unalias name` clause per name,
/// in order, separated by `; `.
pub fn format_unalias_cmd_string(names: &Vec<String>) -> (r: String)
    ensures
        r@ == unalias_command(views(names@)),
{
    let clauses = unalias_clauses(names);
    join_strings(&clauses, "; ")
}

/// The cache text for directory `cwd` with the aliases `execs`.
pub fn create_cache_content(cwd: &str, execs: &Vec<Executable>) -> (r: String)
    ensures
        r@ == cache_content(cwd@, names_of(defs_view(execs@))),
{
    let mut contents: Vec<String> = Vec::new();
    let mut first = record_prefix_string();
    first.append(cwd);
    contents.push(first);
    let mut i: usize = 0;
    while i < execs.len()
        invariant
            i <= execs@.len(),
            views(contents@) == seq![record_prefix() + cwd@] + names_of(defs_view(execs@)).take(
                i as int,
            ),
        decreases execs@.len() - i,
    {
        let ghost before = contents@;
        contents.push(execs[i].key.clone());
        assert(views(contents@) =~= views(before).push(execs@[i as int].key@));
        assert(seq![record_prefix() + cwd@] + names_of(defs_view(execs@)).take(i as int + 1)
            =~= (seq![record_prefix() + cwd@] + names_of(defs_view(execs@)).take(i as int)).push(
            execs@[i as int].key@,
        ));
        i = i + 1;
    }
    assert(names_of(defs_view(execs@)).take(execs@.len() as int) =~= names_of(defs_view(execs@)));
    proof {
        reveal_strlit("\n");
    }
    assert("\n"@ =~= seq!['\n']);
    join_strings(&contents, "\n")
}

} // verus!
