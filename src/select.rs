//! The selection filter: which entries of a directory take part in a run,
//! decided by glob and regular-expression inclusion and exclusion patterns.
use vstd::prelude::*;

verus! {

/// Whether `glob::Pattern::new` accepts the pattern.
pub uninterp spec fn glob_valid(pattern: Seq<char>) -> bool;

/// Whether a compiled glob pattern matches the whole of `name`.
pub uninterp spec fn glob_matches(pattern: Seq<char>, name: Seq<char>) -> bool;

/// Whether `regex::Regex::new` accepts the pattern.
pub uninterp spec fn regex_valid(pattern: Seq<char>) -> bool;

/// Whether a compiled regular expression matches somewhere in `name`.
pub uninterp spec fn regex_matches(pattern: Seq<char>, name: Seq<char>) -> bool;

/// Relies on `glob::Pattern::new`, which fails on a malformed pattern and
/// depends on the pattern text alone, and on `glob::Pattern::matches`, whose
/// answer depends on the pattern and the name alone.
#[verifier::external_body]
fn glob_try_match(pattern: &str, name: &str) -> (r: Option<bool>)
    ensures
        r is None <==> !glob_valid(pattern@),
        r matches Some(m) ==> m == glob_matches(pattern@, name@),
{
    match glob::Pattern::new(pattern) {
        Ok(p) => Some(p.matches(name)),
        Err(_) => None,
    }
}

/// Relies on `regex::Regex::new`, which fails on a malformed pattern (or one
/// over the default size limit) and depends on the pattern text alone, and on
/// `regex::Regex::is_match`, whose answer depends on the pattern and the name
/// alone.
#[verifier::external_body]
fn regex_try_match(pattern: &str, name: &str) -> (r: Option<bool>)
    ensures
        r is None <==> !regex_valid(pattern@),
        r matches Some(m) ==> m == regex_matches(pattern@, name@),
{
    match regex::Regex::new(pattern) {
        Ok(re) => Some(re.is_match(name)),
        Err(_) => None,
    }
}

pub open spec fn opt_view(o: Option<String>) -> Option<Seq<char>> {
    match o {
        Some(s) => Some(s@),
        None => None,
    }
}

/// Outcome of one configured glob pattern on a name: `None` when no pattern
/// is configured; a malformed pattern never matches.
pub open spec fn glob_outcome(pattern: Option<Seq<char>>, name: Seq<char>) -> Option<bool> {
    match pattern {
        Some(p) => Some(glob_valid(p) && glob_matches(p, name)),
        None => None,
    }
}

/// Outcome of one configured regular expression on a name: `None` when no
/// expression is configured; a malformed expression never matches.
pub open spec fn regex_outcome(pattern: Option<Seq<char>>, name: Seq<char>) -> Option<bool> {
    match pattern {
        Some(p) => Some(regex_valid(p) && regex_matches(p, name)),
        None => None,
    }
}

/// The selection rule over the four pattern outcomes: an exclude hit rejects;
/// otherwise an inclusion hit accepts, and with no inclusion pattern configured
/// everything is accepted.
pub open spec fn selection_rule(
    include_glob: Option<bool>,
    exclude_glob: Option<bool>,
    include_regex: Option<bool>,
    exclude_regex: Option<bool>,
) -> bool {
    &&& exclude_glob != Some(true)
    &&& exclude_regex != Some(true)
    &&& {
        ||| include_glob is None && include_regex is None
        ||| include_glob == Some(true)
        ||| include_regex == Some(true)
    }
}

/// Whether an entry named `name` takes part in a run with these patterns.
pub open spec fn selected(
    name: Seq<char>,
    incl: Option<Seq<char>>,
    excl: Option<Seq<char>>,
    incl_re: Option<Seq<char>>,
    excl_re: Option<Seq<char>>,
) -> bool {
    selection_rule(
        glob_outcome(incl, name),
        glob_outcome(excl, name),
        regex_outcome(incl_re, name),
        regex_outcome(excl_re, name),
    )
}

/// Applies the selection rule to the outcomes of the four patterns
/// (`None`: not configured; `Some(hit)`).
pub fn decide_selection(
    include_glob: Option<bool>,
    exclude_glob: Option<bool>,
    include_regex: Option<bool>,
    exclude_regex: Option<bool>,
) -> (r: bool)
    ensures
        r == selection_rule(include_glob, exclude_glob, include_regex, exclude_regex),
{
    if exclude_glob == Some(true) || exclude_regex == Some(true) {
        return false;
    }
    match (include_glob, include_regex) {
        (None, None) => true,
        (g, x) => g == Some(true) || x == Some(true),
    }
}

fn glob_outcome_of(pattern: &Option<String>, name: &str) -> (r: Option<bool>)
    ensures
        r == glob_outcome(opt_view(*pattern), name@),
{
    match pattern {
        Some(p) => match glob_try_match(p.as_str(), name) {
            Some(m) => Some(m),
            None => Some(false),
        },
        None => None,
    }
}

fn regex_outcome_of(pattern: &Option<String>, name: &str) -> (r: Option<bool>)
    ensures
        r == regex_outcome(opt_view(*pattern), name@),
{
    match pattern {
        Some(p) => match regex_try_match(p.as_str(), name) {
            Some(m) => Some(m),
            None => Some(false),
        },
        None => None,
    }
}

/// Whether the entry named `file_name` takes part in the run. Exclude
/// patterns take precedence over inclusion patterns; a malformed pattern
/// matches nothing.
pub fn should_process_file(
    file_name: &str,
    include_patterns: &Option<String>,
    exclude_patterns: &Option<String>,
    include_regex_patterns: &Option<String>,
    exclude_regex_patterns: &Option<String>,
) -> (r: bool)
    ensures
        r == selected(
            file_name@,
            opt_view(*include_patterns),
            opt_view(*exclude_patterns),
            opt_view(*include_regex_patterns),
            opt_view(*exclude_regex_patterns),
        ),
{
    let exclude_glob = glob_outcome_of(exclude_patterns, file_name);
    if exclude_glob == Some(true) {
        return false;
    }
    let exclude_regex = regex_outcome_of(exclude_regex_patterns, file_name);
    if exclude_regex == Some(true) {
        return false;
    }
    let include_glob = glob_outcome_of(include_patterns, file_name);
    let include_regex = regex_outcome_of(include_regex_patterns, file_name);
    decide_selection(include_glob, exclude_glob, include_regex, exclude_regex)
}

/// An entry that matches an exclude pattern, glob or regular expression, is
/// rejected whatever inclusion patterns it also matches.
pub proof fn lemma_exclude_takes_precedence(
    name: Seq<char>,
    incl: Option<Seq<char>>,
    excl: Option<Seq<char>>,
    incl_re: Option<Seq<char>>,
    excl_re: Option<Seq<char>>,
)
    requires
        glob_outcome(excl, name) == Some(true) || regex_outcome(excl_re, name) == Some(
            true,
        ),
    ensures
        !selected(name, incl, excl, incl_re, excl_re),
{
}

/// A malformed pattern never selects: with only malformed inclusion patterns
/// configured, no entry takes part.
pub proof fn lemma_malformed_include_selects_nothing(
    name: Seq<char>,
    incl: Option<Seq<char>>,
    excl: Option<Seq<char>>,
    incl_re: Option<Seq<char>>,
    excl_re: Option<Seq<char>>,
)
    requires
        incl is Some || incl_re is Some,
        incl matches Some(p) ==> !glob_valid(p),
        incl_re matches Some(p) ==> !regex_valid(p),
    ensures
        !selected(name, incl, excl, incl_re, excl_re),
{
}

/// Indices of the entries of `names` that take part in the run, in order.
pub fn select_entries(
    names: &Vec<String>,
    include_patterns: &Option<String>,
    exclude_patterns: &Option<String>,
    include_regex_patterns: &Option<String>,
    exclude_regex_patterns: &Option<String>,
) -> (r: Vec<usize>)
    ensures
        forall|k: int| 0 <= k < r@.len() ==> #[trigger] r@[k] < names@.len(),
        forall|k1: int, k2: int| 0 <= k1 < k2 < r@.len() ==> r@[k1] < r@[k2],
        forall|i: int|
            0 <= i < names@.len() ==> (r@.contains(i as usize) <==> selected(
                #[trigger] names@[i]@,
                opt_view(*include_patterns),
                opt_view(*exclude_patterns),
                opt_view(*include_regex_patterns),
                opt_view(*exclude_regex_patterns),
            )),
{
    let mut r: Vec<usize> = Vec::new();
    let mut i: usize = 0;
    while i < names.len()
        invariant
            i <= names@.len(),
            forall|k: int| 0 <= k < r@.len() ==> #[trigger] r@[k] < i,
            forall|k1: int, k2: int| 0 <= k1 < k2 < r@.len() ==> r@[k1] < r@[k2],
            forall|j: int|
                0 <= j < i ==> (r@.contains(j as usize) <==> selected(
                    #[trigger] names@[j]@,
                    opt_view(*include_patterns),
                    opt_view(*exclude_patterns),
                    opt_view(*include_regex_patterns),
                    opt_view(*exclude_regex_patterns),
                )),
        decreases names@.len() - i,
    {
        let keep = should_process_file(
            names[i].as_str(),
            include_patterns,
            exclude_patterns,
            include_regex_patterns,
            exclude_regex_patterns,
        );
        let ghost old_r = r@;
        if keep {
            r.push(i);
            assert forall|j: int| 0 <= j < i implies (old_r.contains(j as usize) <==> #[trigger] r@.contains(
                j as usize,
            )) by {
                if r@.contains(j as usize) {
                    let k = choose|k: int| 0 <= k < r@.len() && r@[k] == j as usize;
                    if k < old_r.len() {
                        assert(old_r[k] == j as usize);
                    }
                }
                if old_r.contains(j as usize) {
                    let k = choose|k: int| 0 <= k < old_r.len() && old_r[k] == j as usize;
                    assert(r@[k] == j as usize);
                }
            }
            assert(r@[r@.len() - 1] == i);
        } else {
            assert(!old_r.contains(i));
        }
        i = i + 1;
    }
    r
}

} // verus!
