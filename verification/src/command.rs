use vstd::prelude::*;

verus! {

/// An external command as the library decides it: the program, its arguments, the
/// directory it runs in (the current one when `None`), and whether its standard input
/// and output are closed.
pub struct ShellCommand {
    pub program: String,
    pub args: Vec<String>,
    pub cwd: Option<String>,
    pub quiet: bool,
}

pub open spec fn opt_view(o: Option<String>) -> Option<Seq<char>> {
    match o {
        Some(s) => Some(s@),
        None => None,
    }
}

impl View for ShellCommand {
    type V = (Seq<char>, Seq<Seq<char>>, Option<Seq<char>>, bool);

    open spec fn view(&self) -> Self::V {
        (self.program@, crate::text::views(self.args@), opt_view(self.cwd), self.quiet)
    }
}

/// A `String` holding `s`.
pub fn owned(s: &str) -> (r: String)
    ensures
        r@ == s@,
{
    String::from_str(s)
}

/// Appends a copy of `s` to `v`.
pub fn push_str(v: &mut Vec<String>, s: &str)
    ensures
        crate::text::views(final(v)@) == crate::text::views(old(v)@).push(s@),
{
    let x = String::from_str(s);
    assert(crate::text::views(v@.push(x)) =~= crate::text::views(v@).push(s@));
    v.push(x);
}

} // verus!
