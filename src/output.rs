use vstd::prelude::*;

verus! {

/// What one finished process left behind: its exit code and the whole of
/// its standard output and standard error.
#[derive(Clone, Debug)]
pub struct Output {
    stderr: String,
    stdout: String,
    exit_code: i32,
}

/// The mathematical value of an [`Output`].
pub struct OutputView {
    pub code: i32,
    pub stdout: Seq<char>,
    pub stderr: Seq<char>,
}

impl OutputView {
    /// A process succeeded exactly when it exited with code 0.
    pub open spec fn success(self) -> bool {
        self.code == 0
    }
}

impl View for Output {
    type V = OutputView;

    closed spec fn view(&self) -> OutputView {
        OutputView { code: self.exit_code, stdout: self.stdout@, stderr: self.stderr@ }
    }
}

impl Output {
    /// An output with the given exit code and captured streams.
    pub fn new(exit_code: i32, stdout: String, stderr: String) -> (r: Output)
        ensures
            r@.code == exit_code,
            r@.stdout == stdout@,
            r@.stderr == stderr@,
    {
        Output { stderr, stdout, exit_code }
    }

    /// Test if the process finished successfully, that is with exit code 0.
    pub fn success(&self) -> (r: bool)
        ensures
            r == self@.success(),
    {
        self.code() == 0
    }

    /// The exit code of the process.
    pub fn code(&self) -> (r: i32)
        ensures
            r == self@.code,
    {
        self.exit_code
    }

    /// A view into standard out.
    pub fn stdout(&self) -> (r: &str)
        ensures
            r@ == self@.stdout,
    {
        self.stdout.as_str()
    }

    /// A view into standard error.
    pub fn stderr(&self) -> (r: &str)
        ensures
            r@ == self@.stderr,
    {
        self.stderr.as_str()
    }
}

} // verus!
