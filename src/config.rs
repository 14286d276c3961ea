use vstd::prelude::*;
use vstd::string::*;

use crate::error::{check_invariant, Failure, MedusaError};
use crate::text::{join, join_strings, lines, nonempty, split, split_text, views};

verus! {

/// One alias: its name and the command it stands for.
#[derive(Debug)]
pub struct Executable {
    pub key: String,
    pub value: String,
}

impl Executable {
    /// The alias in words: `key: <name> value: <command>`.
    pub fn to_string(&self) -> (r: String)
        ensures
            r@ == "key: "@ + self.key@ + " value: "@ + self.value@,
    {
        let mut r = String::from_str("key: ");
        r.append(self.key.as_str());
        r.append(" value: ");
        r.append(self.value.as_str());
        r
    }
}

impl View for Executable {
    type V = (Seq<char>, Seq<char>);

    open spec fn view(&self) -> (Seq<char>, Seq<char>) {
        (self.key@, self.value@)
    }
}

/// The aliases of a sequence of [`Executable`]s, as name and command.
pub open spec fn defs_view(v: Seq<Executable>) -> Seq<(Seq<char>, Seq<char>)> {
    v.map_values(|e: Executable| e@)
}

/// A line of the alias file is well formed when `=` splits it in exactly two.
pub open spec fn well_formed_line(l: Seq<char>) -> bool {
    split(l, '=').len() == 2
}

/// The alias a well-formed line defines.
pub open spec fn definition_of(l: Seq<char>) -> (Seq<char>, Seq<char>) {
    (split(l, '=')[0], split(l, '=')[1])
}

/// A line without the carriage return that ends it, if any.
pub open spec fn strip_cr(l: Seq<char>) -> Seq<char> {
    if l.len() > 0 && l.last() == '\r' {
        l.drop_last()
    } else {
        l
    }
}

/// The lines of the alias file that define something: its non-empty lines,
/// each taken without a carriage return at its end.
pub open spec fn config_lines(t: Seq<char>) -> Seq<Seq<char>> {
    nonempty(lines(t).map_values(|l: Seq<char>| strip_cr(l)))
}

pub open spec fn config_ok(t: Seq<char>) -> bool {
    forall|i: int| 0 <= i < config_lines(t).len() ==> well_formed_line(#[trigger] config_lines(t)[i])
}

/// The aliases of a well-formed alias file, in file order.
pub open spec fn config_defs(t: Seq<char>) -> Seq<(Seq<char>, Seq<char>)> {
    config_lines(t).map_values(|l: Seq<char>| definition_of(l))
}

/// The first line of `ls` that is not well formed.
pub open spec fn first_bad(ls: Seq<Seq<char>>) -> Seq<char>
    decreases ls.len(),
{
    if ls.len() == 0 {
        Seq::<char>::empty()
    } else if !well_formed_line(ls[0]) {
        ls[0]
    } else {
        first_bad(ls.skip(1))
    }
}

/// What reading an alias file yields: its aliases, or the first bad line.
pub open spec fn parse_config(t: Seq<char>) -> Result<Seq<(Seq<char>, Seq<char>)>, Failure> {
    if config_ok(t) {
        Ok(config_defs(t))
    } else {
        Err(Failure::MalformedConfig(first_bad(config_lines(t))))
    }
}

/// `alias name="command"`, with the command as it is.
pub open spec fn alias_clause(d: (Seq<char>, Seq<char>)) -> Seq<char> {
    "alias "@ + d.0 + "=\""@ + d.1 + "\""@
}

/// The shell text that installs `defs`, in order.
pub open spec fn alias_command(defs: Seq<(Seq<char>, Seq<char>)>) -> Seq<char> {
    join(defs.map_values(|d: (Seq<char>, Seq<char>)| alias_clause(d)), "; "@)
}

proof fn lemma_first_bad_skip(ls: Seq<Seq<char>>, i: int)
    requires
        0 <= i <= ls.len(),
        forall|j: int| 0 <= j < i ==> well_formed_line(#[trigger] ls[j]),
    ensures
        first_bad(ls) == first_bad(ls.skip(i)),
    decreases i,
{
    if i > 0 {
        assert(well_formed_line(ls[0]));
        let rest = ls.skip(1);
        assert forall|j: int| 0 <= j < i - 1 implies well_formed_line(#[trigger] rest[j]) by {
            assert(rest[j] == ls[j + 1]);
        }
        lemma_first_bad_skip(rest, i - 1);
        assert(rest.skip(i - 1) =~= ls.skip(i));
    } else {
        assert(ls.skip(0) =~= ls);
    }
}

/// The lines of an alias file that define something.
fn config_line_texts(config: &str) -> (r: Vec<String>)
    ensures
        views(r@) == config_lines(config@),
{
    let all = split_text(config, '\n');
    let ghost pieces = lines(config@).map_values(|l: Seq<char>| strip_cr(l));
    let mut r: Vec<String> = Vec::new();
    let mut i: usize = 0;
    assert(pieces.take(0) =~= Seq::<Seq<char>>::empty());
    assert(views(r@) =~= Seq::<Seq<char>>::empty());
    while i < all.len()
        invariant
            views(all@) == lines(config@),
            pieces == lines(config@).map_values(|l: Seq<char>| strip_cr(l)),
            i <= all@.len(),
            views(r@) == nonempty(pieces.take(i as int)),
        decreases all@.len() - i,
    {
        assert(pieces.take(i as int + 1).drop_last() =~= pieces.take(i as int));
        assert(pieces.take(i as int + 1).last() == strip_cr(all@[i as int]@));
        let line = all[i].as_str();
        let n = line.unicode_len();
        let end: usize = if n > 0 && line.get_char(n - 1) == '\r' {
            n - 1
        } else {
            n
        };
        let text = String::from_str(line.substring_char(0, end));
        assert(text@ =~= strip_cr(all@[i as int]@));
        if end > 0 {
            let ghost before = r@;
            r.push(text);
            assert(views(r@) =~= views(before).push(strip_cr(all@[i as int]@)));
        }
        i = i + 1;
    }
    assert(pieces.take(all@.len() as int) =~= pieces);
    r
}

/// Reads the alias file's text: its aliases in file order, or the first
/// non-empty line that does not split in exactly two on `=`.
pub fn get_executables_from_config_file(config: &str) -> (r: Result<Vec<Executable>, MedusaError>)
    ensures
        match r {
            Ok(v) => parse_config(config@) == Ok::<Seq<(Seq<char>, Seq<char>)>, Failure>(
                defs_view(v@),
            ),
            Err(e) => parse_config(config@) == Err::<Seq<(Seq<char>, Seq<char>)>, Failure>(e@),
        },
{
    let ls = config_line_texts(config);
    let ghost cl = config_lines(config@);
    let mut executables: Vec<Executable> = Vec::new();
    let mut i: usize = 0;
    while i < ls.len()
        invariant
            views(ls@) == cl,
            cl == config_lines(config@),
            i <= ls@.len(),
            forall|j: int| 0 <= j < i ==> well_formed_line(#[trigger] cl[j]),
            defs_view(executables@) == cl.take(i as int).map_values(
                |l: Seq<char>| definition_of(l),
            ),
        decreases ls@.len() - i,
    {
        let parts = split_text(ls[i].as_str(), '=');
        assert(cl[i as int] == ls@[i as int]@);
        match check_invariant(parts.len() == 2, MedusaError::MalformedConfig(ls[i].clone())) {
            Err(e) => {
                proof {
                    lemma_first_bad_skip(cl, i as int);
                    assert(cl.skip(i as int)[0] == cl[i as int]);
                }
                return Err(e);
            },
            Ok(()) => {},
        }
        let ghost before = executables@;
        executables.push(Executable { key: parts[0].clone(), value: parts[1].clone() });
        assert(defs_view(executables@) =~= defs_view(before).push(definition_of(cl[i as int])));
        assert(cl.take(i as int + 1).map_values(|l: Seq<char>| definition_of(l)) =~= cl.take(
            i as int,
        ).map_values(|l: Seq<char>| definition_of(l)).push(definition_of(cl[i as int])));
        i = i + 1;
    }
    assert(cl.take(cl.len() as int) =~= cl);
    Ok(executables)
}

/// The shell text that installs `execs`: one `alias name="command"` clause per
/// alias, in order, separated by `; `. The command goes in as it is.
pub fn format_execs_as_alias_cmd_string(execs: Vec<Executable>) -> (r: String)
    ensures
        r@ == alias_command(defs_view(execs@)),
{
    let mut cmds: Vec<String> = Vec::new();
    let mut i: usize = 0;
    while i < execs.len()
        invariant
            i <= execs@.len(),
            views(cmds@) == defs_view(execs@).take(i as int).map_values(
                |d: (Seq<char>, Seq<char>)| alias_clause(d),
            ),
        decreases execs@.len() - i,
    {
        let mut c = String::from_str("alias ");
        c.append(execs[i].key.as_str());
        c.append("=\"");
        c.append(execs[i].value.as_str());
        c.append("\"");
        let ghost before = cmds@;
        cmds.push(c);
        assert(views(cmds@) =~= views(before).push(alias_clause(execs@[i as int]@)));
        assert(defs_view(execs@).take(i as int + 1).map_values(
            |d: (Seq<char>, Seq<char>)| alias_clause(d),
        ) =~= defs_view(execs@).take(i as int).map_values(
            |d: (Seq<char>, Seq<char>)| alias_clause(d),
        ).push(alias_clause(execs@[i as int]@)));
        i = i + 1;
    }
    assert(defs_view(execs@).take(execs@.len() as int) =~= defs_view(execs@));
    join_strings(&cmds, "; ")
}

} // verus!
