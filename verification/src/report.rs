//! What a builtin writes: lines for standard output and lines for standard
//! error.

use vstd::prelude::*;

use crate::text::texts;

verus! {

/// The lines a builtin prints, to standard output and to standard error.
pub struct Report {
    pub out: Vec<String>,
    pub err: Vec<String>,
}

impl Report {
    /// The texts of the standard output lines.
    pub open spec fn out_lines(&self) -> Seq<Seq<char>> {
        texts(self.out@)
    }

    /// The texts of the standard error lines.
    pub open spec fn err_lines(&self) -> Seq<Seq<char>> {
        texts(self.err@)
    }

    /// Nothing printed.
    pub fn silent() -> (r: Report)
        ensures
            r.out_lines() == Seq::<Seq<char>>::empty(),
            r.err_lines() == Seq::<Seq<char>>::empty(),
    {
        let r = Report { out: Vec::new(), err: Vec::new() };
        assert(r.out_lines() =~= Seq::<Seq<char>>::empty());
        assert(r.err_lines() =~= Seq::<Seq<char>>::empty());
        r
    }

    /// One line on standard output.
    pub fn out_line(line: String) -> (r: Report)
        ensures
            r.out_lines() == seq![line@],
            r.err_lines() == Seq::<Seq<char>>::empty(),
    {
        let mut out = Vec::new();
        out.push(line);
        let r = Report { out, err: Vec::new() };
        assert(r.out_lines() =~= seq![line@]);
        assert(r.err_lines() =~= Seq::<Seq<char>>::empty());
        r
    }

    /// One line on standard error.
    pub fn err_line(line: String) -> (r: Report)
        ensures
            r.out_lines() == Seq::<Seq<char>>::empty(),
            r.err_lines() == seq![line@],
    {
        let mut err = Vec::new();
        err.push(line);
        let r = Report { out: Vec::new(), err };
        assert(r.err_lines() =~= seq![line@]);
        assert(r.out_lines() =~= Seq::<Seq<char>>::empty());
        r
    }
}

} // verus!
