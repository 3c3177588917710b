use vstd::prelude::*;

verus! {

/// The characters of `s`, in order.
pub fn chars_vec(s: &str) -> (v: Vec<char>)
    ensures
        v@ == s@,
{
    let mut v: Vec<char> = Vec::new();
    for c in it: s.chars()
        invariant
            v@ == it.seq().take(it.index() as int),
    {
        v.push(c);
    }
    v
}

/// A fresh `String` holding the characters `from..to` of `s`.
pub fn substring(s: &str, from: usize, to: usize) -> (r: String)
    requires
        from <= to <= s@.len(),
    ensures
        r@ == s@.subrange(from as int, to as int),
{
    String::from_str(s.substring_char(from, to))
}

/// Unicode `White_Space`, the property that `char::is_whitespace` tests.
pub open spec fn is_ws(c: char) -> bool {
    let u = c as u32;
    ||| 0x09 <= u <= 0x0d
    ||| u == 0x20
    ||| u == 0x85
    ||| u == 0xa0
    ||| u == 0x1680
    ||| 0x2000 <= u <= 0x200a
    ||| u == 0x2028
    ||| u == 0x2029
    ||| u == 0x202f
    ||| u == 0x205f
    ||| u == 0x3000
}

pub fn is_whitespace(c: char) -> (b: bool)
    ensures
        b == is_ws(c),
{
    let u = c as u32;
    (0x09 <= u && u <= 0x0d) || u == 0x20 || u == 0x85 || u == 0xa0 || u == 0x1680 || (0x2000
        <= u && u <= 0x200a) || u == 0x2028 || u == 0x2029 || u == 0x202f || u == 0x205f || u
        == 0x3000
}

/// `s` with its leading whitespace removed.
pub open spec fn trim_start(s: Seq<char>) -> Seq<char>
    decreases s.len(),
{
    if s.len() > 0 && is_ws(s[0]) {
        trim_start(s.drop_first())
    } else {
        s
    }
}

/// `s` with its trailing whitespace removed.
pub open spec fn trim_end(s: Seq<char>) -> Seq<char>
    decreases s.len(),
{
    if s.len() > 0 && is_ws(s.last()) {
        trim_end(s.drop_last())
    } else {
        s
    }
}

/// What `str::trim` gives back: leading and trailing whitespace removed.
pub open spec fn trimmed(s: Seq<char>) -> Seq<char> {
    trim_end(trim_start(s))
}

/// `str::trim`.
pub fn trim(s: &str) -> (r: String)
    ensures
        r@ == trimmed(s@),
{
    let v = chars_vec(s);
    let n = v.len();
    let mut i: usize = 0;
    assert(s@.subrange(0, n as int) =~= s@);
    while i < n && is_whitespace(v[i])
        invariant
            n == v@.len(),
            v@ == s@,
            i <= n,
            trim_start(s@.subrange(i as int, n as int)) == trim_start(s@),
        decreases n - i,
    {
        assert(s@.subrange(i as int, n as int).drop_first() =~= s@.subrange(i + 1, n as int));
        i = i + 1;
    }
    assert(trim_start(s@.subrange(i as int, n as int)) == s@.subrange(i as int, n as int));
    let mut j: usize = n;
    while j > i && is_whitespace(v[j - 1])
        invariant
            n == v@.len(),
            v@ == s@,
            i <= j <= n,
            trim_end(s@.subrange(i as int, j as int)) == trimmed(s@),
        decreases j,
    {
        assert(s@.subrange(i as int, j as int).drop_last() =~= s@.subrange(i as int, j - 1));
        j = j - 1;
    }
    substring(s, i, j)
}

/// `p` occurs in `s` as a contiguous run of characters.
pub open spec fn has_substr(s: Seq<char>, p: Seq<char>) -> bool {
    exists|i: int| 0 <= i && i + p.len() <= s.len() && #[trigger] s.subrange(i, i + p.len()) == p
}

/// `p` occurs in `s` at position `i`.
pub open spec fn occurs_at(s: Seq<char>, p: Seq<char>, i: int) -> bool {
    0 <= i && i + p.len() <= s.len() && forall|k: int| 0 <= k < p.len() ==> s[i + k] == p[k]
}

fn occurs_at_exec(s: &Vec<char>, p: &Vec<char>, i: usize) -> (b: bool)
    requires
        i + p@.len() <= s@.len(),
    ensures
        b == occurs_at(s@, p@, i as int),
{
    let sl = s.len();
    let mut k: usize = 0;
    while k < p.len()
        invariant
            sl == s@.len(),
            i + p@.len() <= s@.len(),
            k <= p@.len(),
            forall|m: int| 0 <= m < k ==> s@[i + m] == p@[m],
        decreases p@.len() - k,
    {
        if s[i + k] != p[k] {
            return false;
        }
        k = k + 1;
    }
    true
}

proof fn lemma_occurs_at_subrange(s: Seq<char>, p: Seq<char>, i: int)
    requires
        0 <= i && i + p.len() <= s.len(),
    ensures
        occurs_at(s, p, i) <==> s.subrange(i, i + p.len()) == p,
{
    if occurs_at(s, p, i) {
        assert(s.subrange(i, i + p.len()) =~= p);
    }
    if s.subrange(i, i + p.len()) == p {
        assert forall|k: int| 0 <= k < p.len() implies s[i + k] == p[k] by {
            assert(s.subrange(i, i + p.len())[k] == s[i + k]);
        }
    }
}

/// `str::contains` with a `&str` pattern.
pub fn contains(s: &str, p: &str) -> (b: bool)
    ensures
        b == has_substr(s@, p@),
{
    let sv = chars_vec(s);
    let pv = chars_vec(p);
    if pv.len() > sv.len() {
        return false;
    }
    if pv.len() == 0 {
        assert(s@.subrange(0int, 0int + p@.len()) =~= p@);
        return true;
    }
    let sl = sv.len();
    let last = sv.len() - pv.len();
    let mut i: usize = 0;
    while i <= last
        invariant
            sv@ == s@,
            pv@ == p@,
            last + pv@.len() == sv@.len(),
            pv@.len() > 0,
            sl == sv@.len(),
            forall|j: int| 0 <= j < i ==> #[trigger] s@.subrange(j, j + p@.len()) != p@,
        decreases last + 1 - i,
    {
        if occurs_at_exec(&sv, &pv, i) {
            proof {
                lemma_occurs_at_subrange(s@, p@, i as int);
            }
            return true;
        }
        proof {
            lemma_occurs_at_subrange(s@, p@, i as int);
        }
        i = i + 1;
    }
    false
}

/// Equality of the characters of two strings.
pub fn str_eq(a: &str, b: &str) -> (r: bool)
    ensures
        r == (a@ == b@),
{
    let x = String::from_str(a);
    let y = String::from_str(b);
    x == y
}

/// The character views of a sequence of strings.
pub open spec fn views(v: Seq<String>) -> Seq<Seq<char>> {
    v.map_values(|x: String| x@)
}

/// Number of characters before the first line feed of `s` (all of `s` if it has none).
pub open spec fn line_len(s: Seq<char>) -> nat
    decreases s.len(),
{
    if s.len() == 0 {
        0
    } else if s[0] == '\n' {
        0
    } else {
        1 + line_len(s.drop_first())
    }
}

/// A line with the carriage return that preceded its line feed removed.
pub open spec fn strip_cr(t: Seq<char>) -> Seq<char> {
    if t.len() > 0 && t.last() == '\r' {
        t.drop_last()
    } else {
        t
    }
}

/// The lines of `s` as `str::lines` yields them: split at each line feed, a carriage
/// return right before a line feed dropped, and no empty line after a final line feed.
pub open spec fn lines_of(s: Seq<char>) -> Seq<Seq<char>>
    decreases s.len(),
{
    if s.len() == 0 {
        seq![]
    } else if line_len(s) >= s.len() {
        seq![s]
    } else {
        seq![strip_cr(s.take(line_len(s) as int))] + lines_of(s.skip(line_len(s) as int + 1))
    }
}

proof fn lemma_line_len(t: Seq<char>, m: int)
    requires
        0 <= m <= t.len(),
        forall|k: int| 0 <= k < m ==> t[k] != '\n',
        m == t.len() || t[m] == '\n',
    ensures
        line_len(t) == m,
    decreases m,
{
    if m > 0 {
        assert forall|k: int| 0 <= k < m - 1 implies t.drop_first()[k] != '\n' by {
            assert(t.drop_first()[k] == t[k + 1]);
        }
        if m < t.len() {
            assert(t.drop_first()[m - 1] == t[m]);
        }
        lemma_line_len(t.drop_first(), m - 1);
    }
}

/// No line of `s` holds a line feed.
pub proof fn lemma_lines_have_no_line_feed(s: Seq<char>)
    ensures
        forall|i: int, k: int|
            0 <= i < lines_of(s).len() && 0 <= k < lines_of(s)[i].len() ==> lines_of(s)[i][k]
                != '\n',
    decreases s.len(),
{
    if s.len() > 0 {
        let n = line_len(s);
        lemma_line_len_prefix(s);
        if n < s.len() {
            lemma_lines_have_no_line_feed(s.skip(n as int + 1));
            let first = strip_cr(s.take(n as int));
            assert forall|i: int, k: int|
                0 <= i < lines_of(s).len() && 0 <= k < lines_of(s)[i].len() implies lines_of(
                s,
            )[i][k] != '\n' by {
                if i == 0 {
                    assert(lines_of(s)[0] == first);
                    assert(first[k] == s[k]);
                } else {
                    assert(lines_of(s)[i] == lines_of(s.skip(n as int + 1))[i - 1]);
                }
            }
        }
    }
}

proof fn lemma_line_len_prefix(s: Seq<char>)
    ensures
        line_len(s) <= s.len(),
        forall|k: int| 0 <= k < line_len(s) ==> s[k] != '\n',
        line_len(s) < s.len() ==> s[line_len(s) as int] == '\n',
    decreases s.len(),
{
    if s.len() > 0 && s[0] != '\n' {
        lemma_line_len_prefix(s.drop_first());
        assert forall|k: int| 0 <= k < line_len(s) implies s[k] != '\n' by {
            if k > 0 {
                assert(s[k] == s.drop_first()[k - 1]);
            }
        }
    }
}

fn line_at(v: &Vec<char>, s: &str, start: usize, end: usize) -> (r: String)
    requires
        v@ == s@,
        start <= end <= v@.len(),
    ensures
        r@ == strip_cr(s@.subrange(start as int, end as int)),
{
    if end > start && v[end - 1] == '\r' {
        let r = substring(s, start, end - 1);
        assert(r@ =~= strip_cr(s@.subrange(start as int, end as int)));
        r
    } else {
        substring(s, start, end)
    }
}

/// The lines of `s`, each as a `String` (`s.lines().map(String::from).collect()`).
pub fn read_lines_to_strings(s: String) -> (lines: Vec<String>)
    ensures
        views(lines@) == lines_of(s@),
{
    let v = chars_vec(s.as_str());
    let n = v.len();
    let mut out: Vec<String> = Vec::new();
    let mut start: usize = 0;
    let mut i: usize = 0;
    assert(s@.skip(0) =~= s@);
    while i < n
        invariant
            v@ == s@,
            n == v@.len(),
            start <= i <= n,
            forall|k: int| start <= k < i ==> s@[k] != '\n',
            views(out@) + lines_of(s@.skip(start as int)) == lines_of(s@),
        decreases n - i,
    {
        if v[i] == '\n' {
            let line = line_at(&v, s.as_str(), start, i);
            proof {
                let t = s@.skip(start as int);
                lemma_line_len(t, i - start);
                assert(t.take(i - start) =~= s@.subrange(start as int, i as int));
                assert(t.skip(i - start + 1) =~= s@.skip(i + 1));
                assert(views(out@.push(line)) =~= views(out@).push(line@));
            }
            out.push(line);
            start = i + 1;
        }
        i = i + 1;
    }
    proof {
        let t = s@.skip(start as int);
        lemma_line_len(t, n - start);
    }
    if start < n {
        let line = substring(s.as_str(), start, n);
        proof {
            assert(line@ =~= s@.skip(start as int));
            assert(views(out@.push(line)) =~= views(out@).push(line@));
        }
        out.push(line);
    }
    assert(views(out@) =~= lines_of(s@));
    out
}

/// The elements of `s` that meet `f`, in order.
pub open spec fn keep<A>(s: Seq<A>, f: spec_fn(A) -> bool) -> Seq<A>
    decreases s.len(),
{
    if s.len() == 0 {
        seq![]
    } else {
        let k = keep(s.drop_last(), f);
        if f(s.last()) {
            k.push(s.last())
        } else {
            k
        }
    }
}

/// Every element of `keep(s, f)` is an element of `s` that meets `f`, and every
/// element of `s` that meets `f` is kept.
pub proof fn lemma_keep<A>(s: Seq<A>, f: spec_fn(A) -> bool)
    ensures
        forall|i: int| 0 <= i < keep(s, f).len() ==> f(#[trigger] keep(s, f)[i]) && s.contains(
            keep(s, f)[i],
        ),
        forall|i: int| 0 <= i < s.len() && f(#[trigger] s[i]) ==> keep(s, f).contains(s[i]),
        keep(s, f).len() <= s.len(),
    decreases s.len(),
{
    if s.len() > 0 {
        let d = s.drop_last();
        lemma_keep(d, f);
        assert forall|i: int| 0 <= i < keep(s, f).len() implies f(#[trigger] keep(s, f)[i])
            && s.contains(keep(s, f)[i]) by {
            if i < keep(d, f).len() {
                assert(keep(s, f)[i] == keep(d, f)[i]);
                let j = choose|j: int| 0 <= j < d.len() && d[j] == keep(d, f)[i];
                assert(s[j] == d[j]);
            } else {
                assert(s[s.len() - 1] == s.last());
            }
        }
        assert forall|i: int| 0 <= i < s.len() && f(#[trigger] s[i]) implies keep(s, f).contains(
            s[i],
        ) by {
            if i < s.len() - 1 {
                assert(d[i] == s[i]);
                let j = choose|j: int| 0 <= j < keep(d, f).len() && keep(d, f)[j] == d[i];
                assert(keep(s, f)[j] == keep(d, f)[j]);
            } else {
                assert(keep(s, f)[keep(s, f).len() - 1] == s.last());
            }
        }
    }
}

/// The decimal digits of `n`, most significant first.
pub open spec fn decimal_spec(n: nat) -> Seq<char>
    decreases n,
{
    if n < 10 {
        seq![(n + 48) as char]
    } else {
        decimal_spec(n / 10).push((n % 10 + 48) as char)
    }
}

fn digit(d: usize) -> (r: String)
    requires
        d < 10,
    ensures
        r@ == seq![(d + 48) as char],
{
    let digits = "0123456789";
    proof {
        reveal_strlit("0123456789");
    }
    let r = substring(digits, d, d + 1);
    assert(r@ =~= seq![(d + 48) as char]);
    r
}

/// `n` written in decimal, as `format!("{}", n)` writes it.
pub fn decimal(n: usize) -> (r: String)
    ensures
        r@ == decimal_spec(n as nat),
    decreases n,
{
    if n < 10 {
        digit(n)
    } else {
        let mut r = decimal(n / 10);
        let d = digit(n % 10);
        r.append(d.as_str());
        r
    }
}

/// What `keep` leaves out of `s` for `f` is what it keeps for the opposite test: the
/// two together hold as many elements as `s`.
pub proof fn lemma_keep_split<A>(s: Seq<A>, f: spec_fn(A) -> bool, g: spec_fn(A) -> bool)
    requires
        forall|x: A| #[trigger] g(x) == !f(x),
    ensures
        keep(s, f).len() + keep(s, g).len() == s.len(),
    decreases s.len(),
{
    if s.len() > 0 {
        lemma_keep_split(s.drop_last(), f, g);
        assert(g(s.last()) == !f(s.last()));
    }
}

/// `keep(s, f)` is empty exactly when no element of `s` meets `f`.
pub proof fn lemma_keep_empty<A>(s: Seq<A>, f: spec_fn(A) -> bool)
    ensures
        keep(s, f).len() == 0 <==> forall|i: int| 0 <= i < s.len() ==> !f(#[trigger] s[i]),
    decreases s.len(),
{
    if s.len() > 0 {
        let d = s.drop_last();
        lemma_keep_empty(d, f);
        if keep(s, f).len() == 0 {
            assert forall|i: int| 0 <= i < s.len() implies !f(#[trigger] s[i]) by {
                if i < s.len() - 1 {
                    assert(s[i] == d[i]);
                }
            }
        }
        if forall|i: int| 0 <= i < s.len() ==> !f(#[trigger] s[i]) {
            assert forall|i: int| 0 <= i < d.len() implies !f(#[trigger] d[i]) by {
                assert(s[i] == d[i]);
            }
            assert(!f(s[s.len() - 1]));
        }
    }
}

} // verus!
