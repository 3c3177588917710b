use vstd::prelude::*;
use crate::text::{contains, has_substr, keep, views, decimal, decimal_spec};

verus! {

pub const STR: &'static str = "search";

/// At most this many matches are printed.
pub const MAX_MATCHES: usize = 25;

/// What became of the last step of a search.
pub enum SearchEvent {
    Start,
    /// The AUR package base list.
    Pkgbases(Vec<String>),
}

/// The next step of a search: read the package base list, or the outcome (the lines
/// to print).
pub enum SearchAction {
    LoadPkgbases,
    Done(Result<Vec<String>, String>),
}

pub enum SearchStep {
    LoadPkgbases,
    Done(Result<Seq<Seq<char>>, Seq<char>>),
}

impl View for SearchAction {
    type V = SearchStep;

    open spec fn view(&self) -> SearchStep {
        match self {
            SearchAction::LoadPkgbases => SearchStep::LoadPkgbases,
            SearchAction::Done(Ok(v)) => SearchStep::Done(Ok(views(v@))),
            SearchAction::Done(Err(e)) => SearchStep::Done(Err(e@)),
        }
    }
}

/// The package bases whose name holds `word`, in the list's order.
pub open spec fn matches_of(pkgbases: Seq<Seq<char>>, word: Seq<char>) -> Seq<Seq<char>> {
    keep(pkgbases, |b: Seq<char>| has_substr(b, word))
}

/// The lines that report the matches `m`: their number, a note when there are more
/// than 25, an empty line, and the first 25 of them.
pub open spec fn report_lines(m: Seq<Seq<char>>) -> Seq<Seq<char>> {
    seq!["Found "@ + decimal_spec(m.len()) + " AUR matches"@] + (if m.len() > 25 {
        seq!["Number of matches exceeded max limit, showing 25 matches"@]
    } else {
        seq![]
    }) + seq![Seq::<char>::empty()] + m.take(if m.len() > 25 { 25 } else { m.len() as int })
}

/// The step of `search` with the arguments `args` after `event`: exactly one search
/// word is taken.
pub open spec fn search_spec(args: Seq<Seq<char>>, event: SearchEvent) -> SearchStep {
    if args.len() == 0 {
        SearchStep::Done(Err("no search word specified"@))
    } else if args.len() > 1 {
        SearchStep::Done(Err("unexpected arguments"@))
    } else {
        match event {
            SearchEvent::Start => SearchStep::LoadPkgbases,
            SearchEvent::Pkgbases(p) => SearchStep::Done(Ok(report_lines(matches_of(views(p@), args[0])))),
        }
    }
}

/// Searches the AUR package base list for names that hold the search word.
pub fn run(args: &Vec<String>, event: SearchEvent) -> (a: SearchAction)
    ensures
        a@ == search_spec(views(args@), event),
{
    if args.len() == 0 {
        return SearchAction::Done(Err(String::from_str("no search word specified")));
    } else if args.len() > 1 {
        return SearchAction::Done(Err(String::from_str("unexpected arguments")));
    }
    match event {
        SearchEvent::Start => SearchAction::LoadPkgbases,
        SearchEvent::Pkgbases(pkgbases) => {
            let word = args[0].as_str();
            let ghost ps = views(pkgbases@);
            let mut result: Vec<String> = Vec::new();
            let mut i: usize = 0;
            assert(ps.take(0) =~= Seq::<Seq<char>>::empty());
            while i < pkgbases.len()
                invariant
                    ps == views(pkgbases@),
                    i <= ps.len(),
                    views(result@) == matches_of(ps.take(i as int), word@),
                decreases ps.len() - i,
            {
                let b = pkgbases[i].clone();
                assert(ps.take(i + 1).drop_last() =~= ps.take(i as int));
                assert(ps.take(i + 1).last() == b@);
                if contains(b.as_str(), word) {
                    assert(views(result@.push(b)) =~= views(result@).push(b@));
                    result.push(b);
                }
                i = i + 1;
            }
            assert(ps.take(ps.len() as int) =~= ps);
            let m = result.len();
            let mut lines: Vec<String> = Vec::new();
            let mut first = String::from_str("Found ");
            first.append(decimal(m).as_str());
            first.append(" AUR matches");
            lines.push(first);
            if m > MAX_MATCHES {
                lines.push(String::from_str("Number of matches exceeded max limit, showing 25 matches"));
            }
            lines.push(String::new());
            let ghost head = views(lines@);
            let shown = if m > MAX_MATCHES { MAX_MATCHES } else { m };
            let mut k: usize = 0;
            while k < shown
                invariant
                    shown <= result@.len(),
                    k <= shown,
                    views(lines@) == head + views(result@).take(k as int),
                decreases shown - k,
            {
                let x = result[k].clone();
                assert(views(lines@.push(x)) =~= views(lines@).push(x@));
                lines.push(x);
                assert(views(lines@) =~= head + views(result@).take(k + 1));
                k = k + 1;
            }
            assert(views(lines@) =~= report_lines(matches_of(ps, word@)));
            SearchAction::Done(Ok(lines))
        },
    }
}

/// Searching for `word` lists exactly the package bases that hold it: every name
/// reported is a package base holding `word` somewhere, and every package base that
/// holds it is reported (the first 25 shown, the count of all given).
pub proof fn lemma_search_finds_bases_holding_word(word: Seq<char>, pkgbases: Vec<String>)
    ensures
        exists|m: Seq<Seq<char>>|
            #![trigger report_lines(m)]
            search_spec(seq![word], SearchEvent::Pkgbases(pkgbases)) == SearchStep::Done(Ok(report_lines(m)))
            && (forall|x: int|
                0 <= x < m.len() ==> views(pkgbases@).contains(#[trigger] m[x]) && exists|i: int|
                    0 <= i && i + word.len() <= m[x].len() && #[trigger] m[x].subrange(i, i + word.len()) == word)
            && (forall|j: int, i: int|
                0 <= j < pkgbases@.len() && 0 <= i && i + word.len() <= pkgbases@[j]@.len()
                    && #[trigger] pkgbases@[j]@.subrange(i, i + word.len()) == word ==> m.contains(pkgbases@[j]@)),
{
    let ps = views(pkgbases@);
    let f = |b: Seq<char>| has_substr(b, word);
    let m = matches_of(ps, word);
    crate::text::lemma_keep(ps, f);
    assert(m == keep(ps, f));
    assert forall|x: int| 0 <= x < m.len() implies ps.contains(#[trigger] m[x]) && exists|i: int|
        0 <= i && i + word.len() <= m[x].len() && #[trigger] m[x].subrange(i, i + word.len()) == word by {
        assert(f(m[x]));
    }
    assert forall|j: int, i: int|
        0 <= j < pkgbases@.len() && 0 <= i && i + word.len() <= pkgbases@[j]@.len()
            && #[trigger] pkgbases@[j]@.subrange(i, i + word.len()) == word implies m.contains(pkgbases@[j]@) by {
        assert(ps[j] == pkgbases@[j]@);
        assert(f(ps[j]));
    }
    assert(search_spec(seq![word], SearchEvent::Pkgbases(pkgbases)) == SearchStep::Done(Ok(report_lines(m))));
}

} // verus!
