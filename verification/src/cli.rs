use vstd::prelude::*;

verus! {

/// What the user asked for on the command line.
#[derive(Debug)]
pub struct CliOptions {
    pub filepath: String,
    pub cfg: bool,
    pub debug: bool,
    pub verbose: bool,
    pub wat: bool,
    pub wasm: bool,
    pub fasm: bool,
    pub run: bool,
}

/// A line of progress as the program reports it: the file, the kind of the
/// line and the message.
pub open spec fn report_line(filepath: Seq<char>, kind: Seq<char>, message: Seq<char>) -> Seq<
    char,
> {
    filepath + ": "@ + kind + ": "@ + message
}

impl CliOptions {
    /// The options for `filepath` with everything switched off.
    pub fn new(filepath: String) -> (res: Self)
        ensures
            res.filepath == filepath,
            !res.cfg && !res.debug && !res.verbose && !res.wat && !res.wasm && !res.fasm
                && !res.run,
    {
        CliOptions {
            filepath,
            cfg: false,
            debug: false,
            verbose: false,
            wat: false,
            wasm: false,
            fasm: false,
            run: false,
        }
    }

    /// The line that reports `message` as information, where the user asked
    /// for reports.
    pub fn verbose_message(&self, message: &String) -> (res: Option<String>)
        ensures
            match res {
                Some(line) => self.verbose && line@ == report_line(
                    self.filepath@,
                    "info"@,
                    message@,
                ),
                None => !self.verbose,
            },
    {
        if self.verbose {
            let mut line = self.filepath.clone();
            line.append(": ");
            line.append("info");
            line.append(": ");
            line.append(message.as_str());
            Some(line)
        } else {
            None
        }
    }

    /// The line that reports `message` as an error, where the user asked
    /// for reports.
    pub fn verbose_error(&self, message: &String) -> (res: Option<String>)
        ensures
            match res {
                Some(line) => self.verbose && line@ == report_line(
                    self.filepath@,
                    "error"@,
                    message@,
                ),
                None => !self.verbose,
            },
    {
        if self.verbose {
            let mut line = self.filepath.clone();
            line.append(": ");
            line.append("error");
            line.append(": ");
            line.append(message.as_str());
            Some(line)
        } else {
            None
        }
    }
}

} // verus!
