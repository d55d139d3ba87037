//! Selecting the lines of a text that contain a query.
use vstd::prelude::*;

verus! {

/// What the search is run with: the query and the file to read.
pub struct Config {
    pub query: String,
    pub file_path: String,
}

impl Config {
    /// Reads the query and the file path from the command line (`args[0]` is
    /// the program).
    pub fn build(args: &[String]) -> (r: Result<Config, &'static str>)
        ensures
            args@.len() < 3 <==> r is Err,
            r matches Err(e) ==> e@ == "not enough arguments"@,
            r matches Ok(c) ==> c.query@ == args@[1]@ && c.file_path@ == args@[2]@,
    {
        if args.len() < 3 {
            return Err("not enough arguments");
        }
        let query = args[1].clone();
        let file_path = args[2].clone();
        Ok(Config { query, file_path })
    }
}

/// `needle` occurs in `hay` as a contiguous run.
pub open spec fn occurs_in(needle: Seq<char>, hay: Seq<char>) -> bool {
    exists|i: int| 0 <= i <= hay.len() - needle.len() && #[trigger] hay.subrange(i, i + needle.len()) == needle
}

/// The end of the line that starts at `i`: the next `'\n'`, or the end.
pub open spec fn line_end(s: Seq<char>, i: int) -> int
    decreases s.len() - i,
{
    if 0 <= i < s.len() && s[i] != '\n' {
        line_end(s, i + 1)
    } else {
        i
    }
}

/// A line that a `'\n'` ended, without a `'\r'` just before it.
pub open spec fn strip_return(l: Seq<char>) -> Seq<char> {
    if l.len() > 0 && l.last() == '\r' {
        l.drop_last()
    } else {
        l
    }
}

/// The lines of `s` from index `i` on: split at `'\n'`, each without the
/// `'\r'` of a `"\r\n"` ending; a final line ending starts no further line.
pub open spec fn lines_from(s: Seq<char>, i: int) -> Seq<Seq<char>>
    decreases s.len() - i,
{
    if 0 <= i < s.len() {
        let e = line_end(s, i);
        if i <= e < s.len() {
            seq![strip_return(s.subrange(i, e))] + lines_from(s, e + 1)
        } else {
            seq![s.subrange(i, s.len() as int)]
        }
    } else {
        Seq::empty()
    }
}

/// The lines of `ls` that contain `q`, in order.
pub open spec fn matching(ls: Seq<Seq<char>>, q: Seq<char>) -> Seq<Seq<char>>
    decreases ls.len(),
{
    if ls.len() == 0 {
        Seq::empty()
    } else if occurs_in(q, ls.last()) {
        matching(ls.drop_last(), q).push(ls.last())
    } else {
        matching(ls.drop_last(), q)
    }
}

/// Relies on str::lines: the lines of `s`, split at `"\n"` or `"\r\n"`,
/// without their endings; a final line ending is optional.
#[verifier::external_body]
fn lines<'a>(s: &'a str) -> (r: Vec<&'a str>)
    ensures
        r@.len() == lines_from(s@, 0).len(),
        forall|i: int| 0 <= i < r@.len() ==> #[trigger] r@[i]@ == lines_from(s@, 0)[i],
{
    s.lines().collect()
}

/// Relies on str::contains: whether `needle` occurs in `hay`.
#[verifier::external_body]
fn contains(hay: &str, needle: &str) -> (r: bool)
    ensures
        r == occurs_in(needle@, hay@),
{
    hay.contains(needle)
}

/// The lines of `contents` that contain `query`, in order.
pub fn search<'a>(query: &str, contents: &'a str) -> (r: Vec<&'a str>)
    ensures
        r@.len() == matching(lines_from(contents@, 0), query@).len(),
        forall|i: int| 0 <= i < r@.len() ==> #[trigger] r@[i]@ == matching(lines_from(contents@, 0), query@)[i],
{
    let all = lines(contents);
    let ghost ls = lines_from(contents@, 0);
    let mut res: Vec<&'a str> = Vec::new();
    let mut k: usize = 0;
    while k < all.len()
        invariant
            k <= all@.len(),
            all@.len() == ls.len(),
            forall|i: int| 0 <= i < all@.len() ==> #[trigger] all@[i]@ == ls[i],
            res@.len() == matching(ls.subrange(0, k as int), query@).len(),
            forall|i: int| 0 <= i < res@.len() ==> #[trigger] res@[i]@ == matching(ls.subrange(0, k as int), query@)[i],
        decreases all@.len() - k,
    {
        let line = all[k];
        proof {
            assert(ls.subrange(0, k + 1).drop_last() =~= ls.subrange(0, k as int));
            assert(ls.subrange(0, k + 1).last() == line@);
        }
        if contains(line, query) {
            res.push(line);
        }
        k += 1;
    }
    proof {
        assert(ls.subrange(0, k as int) =~= ls);
    }
    res
}

} // verus!
