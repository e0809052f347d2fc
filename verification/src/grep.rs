//! Line search: split a text into its lines and keep those that contain a
//! query, with or without regard to case.

use vstd::prelude::*;

verus! {

broadcast use vstd::seq_lib::group_filter_ensures;

/// Index of the first `'\n'` in `s`, or `s.len()` if there is none.
pub open spec fn first_newline(s: Seq<char>) -> nat
    decreases s.len(),
{
    if s.len() == 0 {
        0
    } else if s[0] == '\n' {
        0
    } else {
        1 + first_newline(s.subrange(1, s.len() as int))
    }
}

/// A line separated by `"\r\n"` loses the `'\r'` as well.
pub open spec fn strip_trailing_cr(l: Seq<char>) -> Seq<char> {
    if l.len() > 0 && l[l.len() - 1] == '\r' {
        l.subrange(0, l.len() - 1)
    } else {
        l
    }
}

/// The lines of `s`, split at `'\n'`, each stripped of a `'\r'` left by a
/// `"\r\n"` ending.  A final line ending is optional and adds no empty line.
pub open spec fn spec_lines(s: Seq<char>) -> Seq<Seq<char>>
    decreases s.len(),
{
    if s.len() == 0 {
        Seq::empty()
    } else {
        let j = first_newline(s);
        if j >= s.len() {
            seq![s]
        } else {
            seq![strip_trailing_cr(s.subrange(0, j as int))] + spec_lines(
                s.subrange(j as int + 1, s.len() as int),
            )
        }
    }
}

/// `needle` occurs contiguously somewhere in `hay`.
pub open spec fn contains_sub(hay: Seq<char>, needle: Seq<char>) -> bool {
    exists|o: int|
        0 <= o <= hay.len() - needle.len() && #[trigger] hay.subrange(o, o + needle.len() as int)
            == needle
}

/// The predicate a line must meet to be kept by a case-sensitive search.
pub open spec fn line_matches(q: Seq<char>) -> spec_fn(Seq<char>) -> bool {
    |l: Seq<char>| contains_sub(l, q)
}

/// The views of a sequence of string slices.
pub open spec fn views_of(v: Seq<&str>) -> Seq<Seq<char>> {
    v.map_values(|l: &str| l@)
}

/// `first_newline` is at most the length, everything before it is no
/// newline, and the character there (if any) is one.
pub proof fn lemma_first_newline(s: Seq<char>)
    ensures
        first_newline(s) <= s.len(),
        forall|k: int| 0 <= k < first_newline(s) ==> s[k] != '\n',
        first_newline(s) < s.len() ==> s[first_newline(s) as int] == '\n',
    decreases s.len(),
{
    if s.len() == 0 {
    } else if s[0] == '\n' {
    } else {
        let tail = s.subrange(1, s.len() as int);
        lemma_first_newline(tail);
        assert forall|k: int| 0 <= k < first_newline(s) implies s[k] != '\n' by {
            if k > 0 {
                assert(tail[k - 1] == s[k]);
            }
        }
        if first_newline(s) < s.len() {
            assert(tail[first_newline(tail) as int] == s[first_newline(s) as int]);
        }
    }
}

/// Any position with the three properties above is `first_newline`.
pub proof fn lemma_first_newline_unique(s: Seq<char>, j: int)
    requires
        0 <= j <= s.len(),
        forall|k: int| 0 <= k < j ==> s[k] != '\n',
        j < s.len() ==> s[j] == '\n',
    ensures
        first_newline(s) == j,
    decreases s.len(),
{
    if s.len() == 0 {
    } else if s[0] == '\n' {
        assert(j == 0);
    } else {
        let tail = s.subrange(1, s.len() as int);
        assert(j >= 1);
        assert forall|k: int| 0 <= k < j - 1 implies tail[k] != '\n' by {
            assert(tail[k] == s[k + 1]);
        }
        lemma_first_newline_unique(tail, j - 1);
    }
}

/// Compare `needle` against `hay` at offset `o`, character by character.
fn matches_at(hay: &str, needle: &str, o: usize, n: usize, m: usize) -> (r: bool)
    requires
        n == hay@.len(),
        m == needle@.len(),
        o + m <= n,
    ensures
        r == (hay@.subrange(o as int, o + m) == needle@),
{
    let mut k: usize = 0;
    while k < m
        invariant
            k <= m,
            n == hay@.len(),
            m == needle@.len(),
            o + m <= n,
            forall|j: int| 0 <= j < k ==> hay@[o + j] == needle@[j],
        decreases m - k,
    {
        if hay.get_char(o + k) != needle.get_char(k) {
            proof {
                assert(hay@.subrange(o as int, o + m) != needle@) by {
                    if hay@.subrange(o as int, o + m) == needle@ {
                        assert(hay@.subrange(o as int, o + m)[k as int] == hay@[o + k]);
                    }
                }
            }
            return false;
        }
        k = k + 1;
    }
    proof {
        assert(hay@.subrange(o as int, o + m) =~= needle@);
    }
    true
}

/// Whether `needle` occurs contiguously in `hay`: a verified substring
/// search over the characters.
pub fn contains_str(hay: &str, needle: &str) -> (r: bool)
    ensures
        r == contains_sub(hay@, needle@),
{
    let n = hay.unicode_len();
    let m = needle.unicode_len();
    if m > n {
        proof {
            assert(!contains_sub(hay@, needle@));
        }
        return false;
    }
    if m == 0 {
        proof {
            assert(hay@.subrange(0, 0 + needle@.len() as int) =~= needle@);
            assert(contains_sub(hay@, needle@));
        }
        return true;
    }
    let mut o: usize = 0;
    while o <= n - m
        invariant
            0 < m <= n,
            n == hay@.len(),
            m == needle@.len(),
            o <= n - m + 1,
            forall|k: int| 0 <= k < o ==> #[trigger] hay@.subrange(k, k + m) != needle@,
        decreases n - o,
    {
        if matches_at(hay, needle, o, n, m) {
            proof {
                assert(contains_sub(hay@, needle@));
            }
            return true;
        }
        o = o + 1;
    }
    proof {
        assert(!contains_sub(hay@, needle@));
    }
    false
}

/// Index of the first `'\n'` in `s`, or `n` if there is none.
fn find_first_newline(s: &str, n: usize) -> (j: usize)
    requires
        n == s@.len(),
    ensures
        j == first_newline(s@),
{
    let mut j: usize = 0;
    while j < n
        invariant
            j <= n,
            n == s@.len(),
            forall|k: int| 0 <= k < j ==> s@[k] != '\n',
        decreases n - j,
    {
        if s.get_char(j) == '\n' {
            proof {
                lemma_first_newline_unique(s@, j as int);
            }
            return j;
        }
        j = j + 1;
    }
    proof {
        lemma_first_newline_unique(s@, n as int);
    }
    j
}

/// Filtering a one-line sequence keeps the line exactly when it matches.
proof fn lemma_filter_singleton(x: Seq<char>, p: spec_fn(Seq<char>) -> bool)
    ensures
        seq![x].filter(p) == (if p(x) {
            seq![x]
        } else {
            Seq::<Seq<char>>::empty()
        }),
{
    reveal_with_fuel(Seq::<_>::filter, 2);
    assert(seq![x].drop_last() =~= Seq::<Seq<char>>::empty());
    if p(x) {
        assert(seq![x].filter(p) =~= seq![x]);
    }
}

/// Take the next line off the front of `rest` (of length `n`), exactly as
/// `spec_lines` describes it, and return it with what follows.
pub(crate) fn split_first_line<'a>(rest: &'a str, n: usize) -> (r: (&'a str, &'a str, usize))
    requires
        n == rest@.len(),
        n > 0,
    ensures
        spec_lines(rest@) == seq![r.0@] + spec_lines(r.1@),
        r.2 == r.1@.len(),
        r.1@.len() < n,
{
    let ghost prev: Seq<char> = rest@;
    let j = find_first_newline(rest, n);
    proof {
        lemma_first_newline(prev);
    }
    if j < n {
        let line = if j > 0 && rest.get_char(j - 1) == '\r' {
            rest.substring_char(0, j - 1)
        } else {
            rest.substring_char(0, j)
        };
        let tail = rest.substring_char(j + 1, n);
        proof {
            let cut = prev.subrange(0, j as int);
            assert(line@ == strip_trailing_cr(cut)) by {
                if j > 0 && prev[j as int - 1] == '\r' {
                    assert(cut[cut.len() - 1] == '\r');
                    assert(prev.subrange(0, j as int - 1) =~= cut.subrange(0, cut.len() - 1));
                } else {
                    if cut.len() > 0 && cut[cut.len() - 1] == '\r' {
                        assert(prev[j as int - 1] == '\r');
                    }
                }
            }
            assert(spec_lines(prev) == seq![line@] + spec_lines(tail@));
        }
        (line, tail, n - (j + 1))
    } else {
        let tail = rest.substring_char(n, n);
        proof {
            assert(tail@ =~= Seq::<char>::empty());
            assert(spec_lines(tail@) =~= Seq::<Seq<char>>::empty());
            assert(spec_lines(prev) =~= seq![prev] + spec_lines(tail@));
        }
        (rest, tail, 0)
    }
}

/// All lines of `contents` that contain `query`, in the order they stand in
/// the text.
pub fn search<'a>(query: &'a str, contents: &'a str) -> (r: Vec<&'a str>)
    ensures
        views_of(r@) == spec_lines(contents@).filter(line_matches(query@)),
{
    let ghost p = line_matches(query@);
    let mut results: Vec<&'a str> = Vec::new();
    let mut rest: &'a str = contents;
    let mut n: usize = rest.unicode_len();
    proof {
        assert(views_of(results@) =~= Seq::<Seq<char>>::empty());
        assert(spec_lines(contents@).filter(p) =~= views_of(results@) + spec_lines(rest@).filter(
            p,
        ));
    }
    while n > 0
        invariant
            n == rest@.len(),
            spec_lines(contents@).filter(line_matches(query@)) == views_of(results@) + spec_lines(
                rest@,
            ).filter(line_matches(query@)),
        decreases n,
    {
        let ghost p = line_matches(query@);
        let ghost old_results = results@;
        let ghost old_rest = rest@;
        let (line, tail, tail_len) = split_first_line(rest, n);
        let matched = contains_str(line, query);
        rest = tail;
        n = tail_len;
        if matched {
            results.push(line);
        }
        proof {
            lemma_filter_singleton(line@, p);
            assert(spec_lines(old_rest).filter(p) == seq![line@].filter(p) + spec_lines(
                rest@,
            ).filter(p)) by {
                Seq::<Seq<char>>::filter_distributes_over_add(
                    seq![line@],
                    spec_lines(rest@),
                    p,
                );
            }
            assert(p(line@) == contains_sub(line@, query@));
            if matched {
                assert(views_of(results@) =~= views_of(old_results).push(line@));
                assert(views_of(old_results) + spec_lines(old_rest).filter(p) =~= views_of(
                    results@,
                ) + spec_lines(rest@).filter(p));
            } else {
                assert(views_of(old_results) + spec_lines(old_rest).filter(p) =~= views_of(
                    results@,
                ) + spec_lines(rest@).filter(p));
            }
        }
    }
    proof {
        assert(spec_lines(rest@) =~= Seq::<Seq<char>>::empty());
        assert(views_of(results@) + spec_lines(rest@).filter(p) =~= views_of(results@));
    }
    results
}

/// The character sequence `str::to_lowercase` yields for the given
/// characters; the mapping depends on the characters alone.
pub uninterp spec fn lower_of(s: Seq<char>) -> Seq<char>;

/// Relies on `str::to_lowercase`: the Unicode lowercase mapping of the
/// string, a function of its characters alone.
#[verifier::external_body]
fn to_lowercase(s: &str) -> (r: String)
    ensures
        r@ == lower_of(s@),
{
    s.to_lowercase()
}

/// The predicate a line must meet to be kept by a case-insensitive search:
/// lowered, it contains the lowered query.
pub open spec fn line_matches_lowered(q: Seq<char>) -> spec_fn(Seq<char>) -> bool {
    |l: Seq<char>| contains_sub(lower_of(l), lower_of(q))
}

/// All lines of `contents` that contain `query` without regard to case:
/// both sides are lowercased before the comparison.  The lines kept are the
/// original ones, in the order they stand in the text.
pub fn search_case_insensitive<'a>(query: &str, contents: &'a str) -> (r: Vec<&'a str>)
    ensures
        views_of(r@) == spec_lines(contents@).filter(line_matches_lowered(query@)),
{
    let lowered_query = to_lowercase(query);
    let mut results: Vec<&'a str> = Vec::new();
    let mut rest: &'a str = contents;
    let mut n: usize = rest.unicode_len();
    proof {
        let p = line_matches_lowered(query@);
        assert(views_of(results@) =~= Seq::<Seq<char>>::empty());
        assert(spec_lines(contents@).filter(p) =~= views_of(results@) + spec_lines(rest@).filter(
            p,
        ));
    }
    while n > 0
        invariant
            n == rest@.len(),
            lowered_query@ == lower_of(query@),
            spec_lines(contents@).filter(line_matches_lowered(query@)) == views_of(results@)
                + spec_lines(rest@).filter(line_matches_lowered(query@)),
        decreases n,
    {
        let ghost p = line_matches_lowered(query@);
        let ghost old_results = results@;
        let ghost old_rest = rest@;
        let (line, tail, tail_len) = split_first_line(rest, n);
        let lowered_line = to_lowercase(line);
        let matched = contains_str(lowered_line.as_str(), lowered_query.as_str());
        rest = tail;
        n = tail_len;
        if matched {
            results.push(line);
        }
        proof {
            lemma_filter_singleton(line@, p);
            assert(spec_lines(old_rest).filter(p) == seq![line@].filter(p) + spec_lines(
                rest@,
            ).filter(p)) by {
                Seq::<Seq<char>>::filter_distributes_over_add(
                    seq![line@],
                    spec_lines(rest@),
                    p,
                );
            }
            assert(p(line@) == contains_sub(lower_of(line@), lower_of(query@)));
            if matched {
                assert(views_of(results@) =~= views_of(old_results).push(line@));
                assert(views_of(old_results) + spec_lines(old_rest).filter(p) =~= views_of(
                    results@,
                ) + spec_lines(rest@).filter(p));
            } else {
                assert(views_of(old_results) + spec_lines(old_rest).filter(p) =~= views_of(
                    results@,
                ) + spec_lines(rest@).filter(p));
            }
        }
    }
    proof {
        let p = line_matches_lowered(query@);
        assert(spec_lines(rest@) =~= Seq::<Seq<char>>::empty());
        assert(views_of(results@) + spec_lines(rest@).filter(p) =~= views_of(results@));
    }
    results
}

/// What a run of the line-search program needs to know: the query, the file
/// that holds the text, and whether case is ignored.
#[derive(Debug)]
pub struct Config {
    /// The string looked for.
    pub query: String,
    /// Path of the file whose lines are searched.
    pub file_path: String,
    /// Whether the search ignores case.
    pub ignore_case: bool,
}

impl Config {
    /// Read the query and the file path out of the command line, whose first
    /// element names the program and is skipped.  Whether case is ignored
    /// comes from the environment and is handed in ready-made.
    pub fn build(args: Vec<String>, ignore_case: bool) -> (r: Result<Config, &'static str>)
        ensures
            match r {
                Result::Ok(c) => {
                    &&& args@.len() >= 3
                    &&& c.query@ == args@[1]@
                    &&& c.file_path@ == args@[2]@
                    &&& c.ignore_case == ignore_case
                },
                Result::Err(m) => {
                    &&& args@.len() < 3
                    &&& (args@.len() < 2 <==> m@ == "Didn't get a query string"@)
                    &&& (args@.len() == 2 <==> m@ == "Didn't get a file path"@)
                },
            },
    {
        if args.len() < 2 {
            proof {
                lemma_distinct_messages();
            }
            return Result::Err("Didn't get a query string");
        }
        if args.len() < 3 {
            proof {
                lemma_distinct_messages();
            }
            return Result::Err("Didn't get a file path");
        }
        let query = args[1].clone();
        let file_path = args[2].clone();
        Result::Ok(Config { query, file_path, ignore_case })
    }
}

/// The search a configuration asks for: by exact characters, or without
/// regard to case when the configuration says so.
pub fn search_with_config<'a>(config: &'a Config, contents: &'a str) -> (r: Vec<&'a str>)
    ensures
        !config.ignore_case ==> views_of(r@) == spec_lines(contents@).filter(
            line_matches(config.query@),
        ),
        config.ignore_case ==> views_of(r@) == spec_lines(contents@).filter(
            line_matches_lowered(config.query@),
        ),
{
    if !config.ignore_case {
        search(config.query.as_str(), contents)
    } else {
        search_case_insensitive(config.query.as_str(), contents)
    }
}

/// The two rejection messages differ.
proof fn lemma_distinct_messages()
    ensures
        "Didn't get a query string"@ != "Didn't get a file path"@,
{
    reveal_strlit("Didn't get a query string");
    reveal_strlit("Didn't get a file path");
    assert("Didn't get a query string"@.len() == 25);
    assert("Didn't get a file path"@.len() == 22);
}

} // verus!
