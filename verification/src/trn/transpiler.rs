use vstd::prelude::*;
use vstd::string::StrSliceExecFns;
use crate::fe::ast::{names_view, nodes_view, AstNode, Node};
use crate::cli::CliOptions;
use crate::fe::token::{Failure, SyntaxError};

verus! {

/// A translation of a program into the lines of a target text.
pub trait Transpiler {
    /// The lines that the translation gives for a program, or what it
    /// cannot translate.
    spec fn lines_for(&self, nodes: Seq<Node>) -> Result<Seq<Seq<char>>, Failure>;

    fn transpile(&self, nodes: &Vec<AstNode>) -> (res: Result<Vec<String>, SyntaxError>)
        ensures
            match res {
                Ok(lines) => self.lines_for(nodes_view(nodes@)) == Ok::<
                    Seq<Seq<char>>,
                    Failure,
                >(names_view(lines@)),
                Err(e) => self.lines_for(nodes_view(nodes@)) == Err::<Seq<Seq<char>>, Failure>(
                    e@,
                ),
            },
    ;
}

/// Whether a text ends in `ext`.
pub open spec fn ends_with(text: Seq<char>, ext: Seq<char>) -> bool {
    ext.len() <= text.len() && text.subrange(text.len() - ext.len(), text.len() as int) == ext
}

/// A text without `ext` at its end, as often as it stands there.
pub open spec fn without_extension(text: Seq<char>, ext: Seq<char>) -> Seq<char>
    decreases text.len(),
{
    if ext.len() > 0 && ends_with(text, ext) {
        without_extension(text.subrange(0, text.len() - ext.len()), ext)
    } else {
        text
    }
}

/// Whether the `m` characters of `ext` stand in `text` before index `n`.
fn stands_before(text: &str, n: usize, ext: &str, m: usize) -> (res: bool)
    requires
        n <= text@.len(),
        m == ext@.len(),
    ensures
        res == ends_with(text@.subrange(0, n as int), ext@),
{
    let ghost head = text@.subrange(0, n as int);
    if m > n {
        return false;
    }
    let mut j: usize = 0;
    while j < m
        invariant
            j <= m,
            m <= n,
            n <= text@.len(),
            m == ext@.len(),
            head == text@.subrange(0, n as int),
            forall|k: int| 0 <= k < j ==> text@[n - m + k] == ext@[k],
        decreases m - j,
    {
        if text.get_char(n - m + j) != ext.get_char(j) {
            proof {
                let tail = head.subrange(head.len() - m, head.len() as int);
                assert(tail[j as int] == text@[n - m + j]);
            }
            return false;
        }
        j += 1;
    }
    proof {
        let tail = head.subrange(head.len() - m, head.len() as int);
        assert(tail =~= ext@);
    }
    true
}

/// The path without `ext` at its end, as often as it stands there.
pub fn remove_extension(filepath: &String, ext: &str) -> (res: String)
    ensures
        res@ == without_extension(filepath@, ext@),
{
    let text = filepath.as_str();
    let m = ext.unicode_len();
    let mut n = text.unicode_len();
    assert(text@.subrange(0, n as int) =~= text@);
    while m > 0 && stands_before(text, n, ext, m)
        invariant
            n <= text@.len(),
            m == ext@.len(),
            without_extension(text@, ext@) == without_extension(text@.subrange(0, n as int), ext@),
        decreases n,
    {
        proof {
            let head = text@.subrange(0, n as int);
            assert(head.subrange(0, head.len() - m) =~= text@.subrange(0, n - m));
        }
        n -= m;
    }
    String::from_str(text.substring_char(0, n))
}

/// The path with `new_ext` in place of `old_ext` at its end.
pub fn replace_extension(filepath: &String, old_ext: &str, new_ext: &str) -> (res: String)
    ensures
        res@ == without_extension(filepath@, old_ext@) + new_ext@,
{
    let mut res = remove_extension(filepath, old_ext);
    res.append(new_ext);
    res
}

/// Which target texts the user asked for.
#[derive(Clone, Copy, Debug, PartialEq, Eq, Structural)]
pub enum Target {
    Wat,
    Fasm,
}

/// A step of the translation of a program into its targets.
#[derive(Debug)]
pub enum Step {
    /// Write the target text of the program to the file `path`.
    Write { target: Target, path: String },
    /// Run the command `args`.
    Run { args: Vec<String> },
}

/// The mathematical content of a [`Step`].
pub enum StepView {
    Write { target: Target, path: Seq<char> },
    Run { args: Seq<Seq<char>> },
}

impl View for Step {
    type V = StepView;

    open spec fn view(&self) -> StepView {
        match self {
            Step::Write { target, path } => StepView::Write { target: *target, path: path@ },
            Step::Run { args } => StepView::Run { args: names_view(args@) },
        }
    }
}

pub open spec fn steps_view(steps: Seq<Step>) -> Seq<StepView> {
    Seq::new(steps.len(), |i: int| steps[i]@)
}

/// The steps that the options ask for, for the source file `filepath`.
///
/// With `wat` or `wasm` the WAT text is written; without `wasm` that is
/// all; with it the WAT text is then assembled. With `fasm` the assembly
/// text is written after that.
pub open spec fn plan(wat: bool, wasm: bool, fasm: bool, filepath: Seq<char>) -> Seq<StepView> {
    let base = without_extension(filepath, "irl"@);
    let write_wat = StepView::Write { target: Target::Wat, path: base + "wat"@ };
    let assemble = StepView::Run {
        args: seq!["wat2wasm"@, base + "wat"@, "-o"@, base + "wasm"@],
    };
    let write_fasm = StepView::Write { target: Target::Fasm, path: base + "fasm"@ };
    if wat || wasm {
        if !wasm {
            seq![write_wat]
        } else if fasm {
            seq![write_wat, assemble, write_fasm]
        } else {
            seq![write_wat, assemble]
        }
    } else if fasm {
        seq![write_fasm]
    } else {
        Seq::empty()
    }
}

/// The steps that translate a program into the targets that the options
/// ask for.
pub fn transpile(options: &CliOptions, filepath: &String) -> (res: Vec<Step>)
    ensures
        steps_view(res@) == plan(options.wat, options.wasm, options.fasm, filepath@),
{
    let mut steps: Vec<Step> = Vec::new();
    if options.wat || options.wasm {
        let wat_filepath = replace_extension(filepath, "irl", "wat");
        steps.push(Step::Write { target: Target::Wat, path: wat_filepath.clone() });
        if !options.wasm {
            assert(steps_view(steps@) =~= plan(
                options.wat,
                options.wasm,
                options.fasm,
                filepath@,
            ));
            return steps;
        }
        let wasm_filepath = replace_extension(filepath, "irl", "wasm");
        let mut args: Vec<String> = Vec::new();
        args.push(String::from_str("wat2wasm"));
        args.push(wat_filepath);
        args.push(String::from_str("-o"));
        args.push(wasm_filepath);
        assert(names_view(args@) =~= seq![
            "wat2wasm"@,
            without_extension(filepath@, "irl"@) + "wat"@,
            "-o"@,
            without_extension(filepath@, "irl"@) + "wasm"@,
        ]);
        steps.push(Step::Run { args });
    }
    if options.fasm {
        let fasm_filepath = replace_extension(filepath, "irl", "fasm");
        steps.push(Step::Write { target: Target::Fasm, path: fasm_filepath });
    }
    assert(steps_view(steps@) =~= plan(options.wat, options.wasm, options.fasm, filepath@));
    steps
}

} // verus!
