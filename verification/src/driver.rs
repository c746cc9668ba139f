//! Around a run of the interpreter: what is to be done for a list of
//! paths, what the interpreter is given to read, and what is made of what
//! it printed.
//!
//! The library decides and the caller acts. `parse_multi` is asked
//! first without a run: it answers that the recipes are none, where there
//! is no path, or that the interpreter is to be called. After the run it
//! is asked again with what the run gave, and answers with the recipes.

use vstd::prelude::*;
use crate::error::{Error, ParserScriptError};
use crate::pkgbuild::{all_wf, pkgbuilds_of, Pkgbuild, Pkgbuilds, PkgbuildView};
use crate::stream::{parse_stream, PkgbuildsParsing};
use crate::text::{find_bytes, lit, seq_contains, views_of};

verus! {

/// How the interpreter is called.
#[derive(Debug, Clone, PartialEq, Eq)]
pub struct ParserOptions {
    /// The path of the interpreter that runs the script.
    pub intepreter: String,
    /// The directory to change to before the interpreter is called, if
    /// any.
    pub work_dir: Option<String>,
}

impl ParserOptions {
    /// The options by default: `/bin/bash`, called in the directory of
    /// the caller.
    pub fn new() -> (r: ParserOptions)
        ensures
            r.intepreter@ == "/bin/bash"@,
            r.work_dir is None,
    {
        ParserOptions { intepreter: "/bin/bash".to_owned(), work_dir: None }
    }

    /// Sets the path of the interpreter.
    pub fn set_interpreter(&mut self, interpreter: String) -> (r: &mut ParserOptions)
        ensures
            r.intepreter == interpreter,
            r.work_dir == old(self).work_dir,
            *final(r) == *final(self),
    {
        self.intepreter = interpreter;
        self
    }

    /// Sets the directory to change to before the interpreter is called.
    pub fn set_work_dir(&mut self, work_dir: Option<String>) -> (r: &mut ParserOptions)
        ensures
            r.work_dir == work_dir,
            r.intepreter == old(self).intepreter,
            *final(r) == *final(self),
    {
        self.work_dir = work_dir;
        self
    }
}

/// The line that asks for the recipe at `path`: the path, after `./`
/// where it has no `/`, so that it is not looked up elsewhere.
pub open spec fn path_line(path: Seq<u8>) -> Seq<u8> {
    (if seq_contains(path, seq![0x2fu8]) {
        Seq::empty()
    } else {
        seq![0x2eu8, 0x2fu8]
    }) + path + seq![0x0au8]
}

/// What the interpreter is given to read: one line for each path, in
/// order.
pub open spec fn input_of(paths: Seq<Seq<u8>>) -> Seq<u8>
    decreases paths.len(),
{
    if paths.len() == 0 {
        Seq::empty()
    } else {
        input_of(paths.drop_last()) + path_line(paths.last())
    }
}

/// Makes what the interpreter is given to read for a list of paths.
pub fn input_for(paths: &[&[u8]]) -> (input: Vec<u8>)
    ensures
        input@ == input_of(views_of(paths@)),
{
    let ghost all = views_of(paths@);
    let slash = [0x2fu8];
    assert(slash@ =~= seq![0x2fu8]);
    let mut input: Vec<u8> = Vec::new();
    let mut i: usize = 0;
    proof {
        assert(all.take(0) =~= Seq::<Seq<u8>>::empty());
    }
    while i < paths.len()
        invariant
            i <= paths@.len(),
            slash@ == seq![0x2fu8],
            all == views_of(paths@),
            input@ == input_of(all.take(i as int)),
        decreases paths@.len() - i,
    {
        let path = paths[i];
        let ghost before = input@;
        if find_bytes(path, slash.as_slice()).is_none() {
            input.push(0x2eu8);
            input.push(0x2fu8);
        }
        input.extend_from_slice(path);
        input.push(0x0au8);
        proof {
            assert(all.take(i + 1).drop_last() =~= all.take(i as int));
            assert(all.take(i + 1).last() == path@);
            assert(input@ =~= before + path_line(path@));
        }
        i += 1;
    }
    assert(all.take(i as int) =~= all);
    input
}

/// How a run of the interpreter ends for the caller.
pub enum Outcome {
    /// With the recipes that were asked for.
    Recipes(Seq<PkgbuildView>),
    /// The script gave up, with the exit status held.
    ScriptFailed(Option<i32>),
    /// The script printed a line that may not stand where it does, which
    /// is held, or its output ends within a recipe, and nothing is held.
    IllegalOutput(Seq<u8>),
    /// A recipe is inconsistent.
    Broken,
    /// There are more or fewer recipes than were asked for.
    Mismatched { input: nat, output: nat, result: Seq<PkgbuildView> },
}

/// How a run ends in which the interpreter left with `status` after
/// printing `output` for `count` paths. A status other than zero means
/// that the script gave up. Then the output is read, then the recipes
/// in it, and last they are counted.
pub open spec fn outcome_of(count: nat, status: Option<i32>, output: Seq<u8>) -> Outcome {
    if status != Some(0i32) {
        Outcome::ScriptFailed(status)
    } else {
        match recipes_of(output) {
            Err(outcome) => outcome,
            Ok(recipes) => if recipes.len() == count {
                Outcome::Recipes(recipes)
            } else {
                Outcome::Mismatched { input: count, output: recipes.len(), result: recipes }
            },
        }
    }
}

/// The error says how the run ended.
pub open spec fn tells(e: Error, outcome: Outcome) -> bool {
    match outcome {
        Outcome::Recipes(_) => false,
        Outcome::ScriptFailed(status) => e == Error::ParserScriptError(
            ParserScriptError::of(status),
        ),
        Outcome::IllegalOutput(line) => e matches Error::ParserScriptIllegalOutput(held) && held@
            == line,
        Outcome::Broken => e matches Error::BrokenPKGBUILDs(names) && names@.len() == 0,
        Outcome::Mismatched { input, output, result } => e matches Error::MismatchedResultCount {
            input: i,
            output: o,
            result: r,
        } && i == input && o == output && r.deep_view() == result,
    }
}

/// Reads the recipes that the interpreter printed for `count` paths
/// before it left with `status`. Every recipe that is given is well
/// formed, and there are `count` of them.
pub fn read_multi(count: usize, status: Option<i32>, output: &Vec<u8>) -> (r: Result<
    Vec<Pkgbuild>,
    Error,
>)
    ensures
        match r {
            Ok(recipes) => {
                &&& outcome_of(count as nat, status, output@) == Outcome::Recipes(
                    recipes.deep_view(),
                )
                &&& recipes@.len() == count
                &&& all_wf(recipes.deep_view())
            },
            Err(e) => tells(e, outcome_of(count as nat, status, output@)),
        },
{
    match status {
        Some(0) => {},
        _ => {
            return Err(Error::ParserScriptError(ParserScriptError::from(status)));
        },
    }
    let pkgbuilds = match read_output(output) {
        Ok(pkgbuilds) => pkgbuilds,
        Err(e) => {
            return Err(e);
        },
    };
    let actual = pkgbuilds.entries.len();
    if actual != count {
        return Err(
            Error::MismatchedResultCount { input: count, output: actual, result: pkgbuilds.entries },
        );
    }
    Ok(pkgbuilds.entries)
}

/// The recipes that an output holds, or why it holds none.
pub open spec fn recipes_of(output: Seq<u8>) -> Result<Seq<PkgbuildView>, Outcome> {
    match parse_stream(output) {
        Err(line) => Err(Outcome::IllegalOutput(line)),
        Ok(records) => match pkgbuilds_of(records) {
            None => Err(Outcome::Broken),
            Some(recipes) => Ok(recipes),
        },
    }
}

/// Reads the recipes that the interpreter printed.
pub fn read_output(output: &Vec<u8>) -> (r: Result<Pkgbuilds, Error>)
    ensures
        match r {
            Ok(recipes) => {
                &&& recipes_of(output@) == Ok::<Seq<PkgbuildView>, Outcome>(recipes@.entries)
                &&& all_wf(recipes@.entries)
            },
            Err(e) => recipes_of(output@) is Err && tells(e, recipes_of(output@)->Err_0),
        },
{
    let parsed = match PkgbuildsParsing::from_parser_output(output) {
        Ok(parsed) => parsed,
        Err(e) => {
            return Err(e);
        },
    };
    Pkgbuilds::try_from(&parsed)
}

/// Reads the one recipe that the interpreter printed for one path before
/// it left with `status`.
pub fn read_one(status: Option<i32>, output: &Vec<u8>) -> (r: Result<Pkgbuild, Error>)
    ensures
        match r {
            Ok(recipe) => outcome_of(1, status, output@) == Outcome::Recipes(seq![recipe@])
                && recipe@.wf(),
            Err(e) => tells(e, outcome_of(1, status, output@)),
        },
{
    let mut pkgbuilds = match read_multi(1, status, output) {
        Ok(pkgbuilds) => pkgbuilds,
        Err(e) => {
            return Err(e);
        },
    };
    let ghost all = pkgbuilds.deep_view();
    match pkgbuilds.pop() {
        Some(pkgbuild) => {
            assert(all =~= seq![pkgbuild@]);
            proof {
                reveal(all_wf);
                assert(all[0].wf());
            }
            Ok(pkgbuild)
        },
        None => Err(Error::MismatchedResultCount { input: 1, output: 0, result: pkgbuilds }),
    }
}

/// What a run of the interpreter gave: the status that it left with
/// and what it printed.
#[derive(Debug, Clone, Copy)]
pub struct Ran<'a> {
    pub status: Option<i32>,
    pub output: &'a Vec<u8>,
}

/// What is to be done next to have the recipes at some paths read.
#[derive(Debug, PartialEq, Eq)]
pub enum Step {
    /// The interpreter is to be called and given `input` to read.
    Run { input: Vec<u8> },
    /// Nothing: the recipes are read, or reading them failed.
    Done(Result<Vec<Pkgbuild>, Error>),
}

/// What is to be done next to have the recipe at one path read.
#[derive(Debug, PartialEq, Eq)]
pub enum StepOne {
    /// The interpreter is to be called and given `input` to read.
    Run { input: Vec<u8> },
    /// Nothing: the recipe is read, or reading it failed.
    Done(Result<Pkgbuild, Error>),
}

/// The result says how the run ended.
pub open spec fn agrees(r: Result<Vec<Pkgbuild>, Error>, outcome: Outcome) -> bool {
    match r {
        Ok(recipes) => outcome == Outcome::Recipes(recipes.deep_view()) && all_wf(
            recipes.deep_view(),
        ),
        Err(e) => tells(e, outcome),
    }
}

/// The result says how the run for one path ended.
pub open spec fn agrees_one(r: Result<Pkgbuild, Error>, outcome: Outcome) -> bool {
    match r {
        Ok(recipe) => outcome == Outcome::Recipes(seq![recipe@]) && recipe@.wf(),
        Err(e) => tells(e, outcome),
    }
}

/// The path of the recipe that is read where none is named.
pub open spec fn default_path() -> Seq<u8> {
    lit("PKGBUILD")
}

/// Reads the recipes at the paths, in their order, in up to two steps.
/// Without a path the recipes are none, and the interpreter is not to be
/// called, whatever `ran` holds. With paths and before a run, the
/// interpreter is to be called with one line for each path. After the
/// run the recipes are read from what the interpreter printed: as many
/// as there are paths, each of them well formed.
pub fn parse_multi(paths: &[&[u8]], ran: Option<Ran>) -> (step: Step)
    ensures
        paths@.len() == 0 ==> (step matches Step::Done(Ok(recipes)) && recipes@.len() == 0),
        paths@.len() > 0 && ran is None ==> (step matches Step::Run { input } && input@
            == input_of(views_of(paths@))),
        paths@.len() > 0 && ran is Some ==> (step matches Step::Done(r) && agrees(
            r,
            outcome_of(paths@.len(), ran.unwrap().status, ran.unwrap().output@),
        )),
{
    if paths.len() == 0 {
        return Step::Done(Ok(Vec::new()));
    }
    match ran {
        None => Step::Run { input: input_for(paths) },
        Some(ran) => Step::Done(read_multi(paths.len(), ran.status, ran.output)),
    }
}

/// Reads the recipe at the path, or at `PKGBUILD` where no path is
/// named, in two steps. Before a run, the interpreter is to be called
/// with the line for the path. After the run the recipe is read from
/// what the interpreter printed.
pub fn parse_one(path: Option<&[u8]>, ran: Option<Ran>) -> (step: StepOne)
    ensures
        ran is None ==> (step matches StepOne::Run { input } && input@ == path_line(
            match path {
                Some(path) => path@,
                None => default_path(),
            },
        )),
        ran is Some ==> (step matches StepOne::Done(r) && agrees_one(
            r,
            outcome_of(1, ran.unwrap().status, ran.unwrap().output@),
        )),
{
    match ran {
        None => {
            let path = match path {
                Some(path) => path,
                None => "PKGBUILD".as_bytes(),
            };
            let paths = [path];
            let input = input_for(paths.as_slice());
            proof {
                let all = views_of(paths@);
                assert(all =~= seq![path@]);
                assert(all.drop_last() =~= Seq::<Seq<u8>>::empty());
                assert(input_of(all.drop_last()) =~= Seq::<u8>::empty());
                assert(input@ =~= path_line(path@));
            }
            StepOne::Run { input }
        },
        Some(ran) => StepOne::Done(read_one(ran.status, ran.output)),
    }
}

/// What is needed to have recipes read: the script that the
/// interpreter runs, and how the interpreter is called.
#[derive(Debug, Clone, PartialEq, Eq)]
pub struct Parser {
    /// The path of the script on disk.
    pub script: String,
    /// How the interpreter is called.
    pub options: ParserOptions,
}

/// How the interpreter is to be called: the program, the script that
/// is its one argument, and the directory to change to before, if any.
/// Its three pipes are all to be connected to the caller.
#[derive(Debug, Clone, Copy, PartialEq, Eq)]
pub struct Call<'a> {
    pub program: &'a str,
    pub script: &'a str,
    pub work_dir: Option<&'a str>,
}

impl Parser {
    /// A parser for a script on disk, with the options by default.
    pub fn new(script: String) -> (r: Parser)
        ensures
            r.script == script,
            r.options.intepreter@ == "/bin/bash"@,
            r.options.work_dir is None,
    {
        Parser { script, options: ParserOptions::new() }
    }

    /// Sets the path of the script.
    pub fn set_script(&mut self, script: String) -> (r: &mut Parser)
        ensures
            r.script == script,
            r.options == old(self).options,
            *final(r) == *final(self),
    {
        self.script = script;
        self
    }

    /// Sets how the interpreter is called.
    pub fn set_options(&mut self, options: ParserOptions) -> (r: &mut Parser)
        ensures
            r.options == options,
            r.script == old(self).script,
            *final(r) == *final(self),
    {
        self.options = options;
        self
    }

    /// How the interpreter is to be called.
    pub fn get_command(&self) -> (call: Call<'_>)
        ensures
            call.program@ == self.options.intepreter@,
            call.script@ == self.script@,
            match call.work_dir {
                Some(dir) => self.options.work_dir is Some && dir@
                    == self.options.work_dir.unwrap()@,
                None => self.options.work_dir is None,
            },
    {
        Call {
            program: self.options.intepreter.as_str(),
            script: self.script.as_str(),
            work_dir: match &self.options.work_dir {
                Some(dir) => Some(dir.as_str()),
                None => None,
            },
        }
    }

    /// Reads the recipes at the paths, in their order, in up to two steps.
    /// Without a path the recipes are none, and the interpreter is not to
    /// be called. With paths and before a run, the interpreter is to be
    /// called with one line for each path. After the run the recipes are
    /// read from what the interpreter printed.
    pub fn parse_multi(&self, paths: &[&[u8]], ran: Option<Ran>) -> (step: Step)
        ensures
            paths@.len() == 0 ==> (step matches Step::Done(Ok(recipes)) && recipes@.len() == 0),
            paths@.len() > 0 && ran is None ==> (step matches Step::Run { input } && input@
                == input_of(views_of(paths@))),
            paths@.len() > 0 && ran is Some ==> (step matches Step::Done(r) && agrees(
                r,
                outcome_of(paths@.len(), ran.unwrap().status, ran.unwrap().output@),
            )),
    {
        parse_multi(paths, ran)
    }

    /// Reads the recipe at the path, or at `PKGBUILD` where no path is
    /// named, in two steps.
    pub fn parse_one(&self, path: Option<&[u8]>, ran: Option<Ran>) -> (step: StepOne)
        ensures
            ran is None ==> (step matches StepOne::Run { input } && input@ == path_line(
                match path {
                    Some(path) => path@,
                    None => default_path(),
                },
            )),
            ran is Some ==> (step matches StepOne::Done(r) && agrees_one(
                r,
                outcome_of(1, ran.unwrap().status, ran.unwrap().output@),
            )),
    {
        parse_one(path, ran)
    }
}

} // verus!
