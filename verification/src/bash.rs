use vstd::prelude::*;
use crate::command::{ShellCommand, owned, push_str};

verus! {

/// `bash`, run in a directory.
pub struct Bash {
    cwd: String,
}

impl View for Bash {
    type V = Seq<char>;

    closed spec fn view(&self) -> Seq<char> {
        self.cwd@
    }
}

/// `bash -c script`, run in `cwd`.
pub open spec fn bash_command(cwd: Seq<char>, script: Seq<char>) -> (Seq<char>, Seq<Seq<char>>, Option<Seq<char>>, bool) {
    ("bash"@, seq!["-c"@, script], Some(cwd), false)
}

impl Bash {
    pub fn cwd(cwd: String) -> (b: Self)
        ensures
            b@ == cwd@,
    {
        Bash { cwd }
    }

    fn command(&self, cmd: &str) -> (c: ShellCommand)
        ensures
            c@ == bash_command(self@, cmd@),
    {
        let mut a: Vec<String> = Vec::new();
        push_str(&mut a, "-c");
        push_str(&mut a, cmd);
        assert(crate::text::views(a@) =~= seq!["-c"@, cmd@]);
        ShellCommand { program: owned("bash"), args: a, cwd: Some(self.cwd.clone()), quiet: false }
    }

    /// The command whose output is read: `bash -c cmd`.
    pub fn output(&self, cmd: &str) -> (c: ShellCommand)
        ensures
            c@ == bash_command(self@, cmd@),
    {
        self.command(cmd)
    }

    /// The command whose exit status is read: `bash -c cmd`.
    pub fn status(&self, cmd: &str) -> (c: ShellCommand)
        ensures
            c@ == bash_command(self@, cmd@),
    {
        self.command(cmd)
    }
}

} // verus!
