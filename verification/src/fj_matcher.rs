//! The fuzzy matcher: scoring policy, per-worker scanning decisions, and the
//! final aggregation of worker results.
//!
//! A candidate path is scored by fuzzy-matching its reversed text against the
//! reversed pattern (so a match near the leaf of the path outweighs the same
//! match near the root), then adding the path's recorded visit count from the
//! cache snapshot.  Workers drain a shared frontier of directories; this
//! module holds each worker's decisions — which children to skip, how to
//! score the rest, which to feed back into the frontier, and when to report —
//! while the unverified shell does the directory listing, the locking and the
//! thread plumbing around them.

use crate::cache::entries_lookup;
use crate::cache::lhm_entries;
use crate::cache::lhm_get;
use linked_hash_map::LinkedHashMap;
use vstd::prelude::*;
use vstd::seq_lib::*;

verus! {

/// A worker's local best candidate: the highest score it has seen and the
/// path that scored it.  A worker that saw nothing reports score 0 and the
/// empty path.
#[derive(Clone, Debug)]
pub struct WorkerResult {
    pub score: i64,
    pub path: String,
}

impl View for WorkerResult {
    type V = (i64, Seq<char>);

    open spec fn view(&self) -> (i64, Seq<char>) {
        (self.score, self.path@)
    }
}

/// What a worker found when it went back to the frontier: a directory with
/// these child directories, a directory it could not list, or nothing left.
pub enum WorkerEvent {
    Listing(Vec<String>),
    ListingFailed,
    FrontierEmpty,
}

/// What the worker does next: push these paths onto the frontier and keep
/// going, or report its local best and stop.
pub enum WorkerAction {
    Expand(Vec<String>),
    Report,
}

/// The score below which the best candidate is discarded and the scan falls
/// back to the current directory.
pub const MATCH_THRESHOLD: i64 = 10;

/// The views of a sequence of strings.
pub open spec fn string_views(v: Seq<String>) -> Seq<Seq<char>> {
    Seq::new(v.len(), |i: int| v[i]@)
}

/// What `fuzzy_matcher`'s skim scorer returns for a choice and a pattern: a
/// score when the pattern's characters appear in order within the choice,
/// `None` when they do not.
pub uninterp spec fn skim_score(choice: Seq<char>, pattern: Seq<char>) -> Option<i64>;

/// Relies on fuzzy_matcher::skim::fuzzy_match: the result is a pure function
/// of the two strings, and an empty pattern always matches with score 0.
#[allow(deprecated)]
#[verifier::external_body]
fn skim_fuzzy_match(choice: &str, pattern: &str) -> (r: Option<i64>)
    ensures
        r == skim_score(choice@, pattern@),
        pattern@.len() == 0 ==> r == Some(0i64),
{
    fuzzy_matcher::skim::fuzzy_match(choice, pattern)
}

/// Relies on String::push: appends exactly one character.
#[verifier::external_body]
fn push_char(s: &mut String, c: char)
    ensures
        final(s)@ == old(s)@.push(c),
{
    s.push(c);
}

/// The fuzzy part of a candidate's score: the skim score of the reversed
/// path against the reversed pattern, or 0 when the pattern does not match.
pub open spec fn base_score(path: Seq<char>, rev_pattern: Seq<char>) -> i64 {
    match skim_score(path.reverse(), rev_pattern) {
        Some(s) => s,
        None => 0,
    }
}

/// The frecency bonus: the candidate's recorded visit count, 0 when the
/// cache has no entry for it.
pub open spec fn cache_bonus(entries: Seq<(Seq<char>, i64)>, path: Seq<char>) -> i64 {
    match entries_lookup(entries, path) {
        Some(v) => v,
        None => 0,
    }
}

/// Addition clamped to the score type's range.
pub open spec fn clamp_add(a: i64, b: i64) -> i64 {
    if a + b > i64::MAX {
        i64::MAX
    } else if a + b < i64::MIN {
        i64::MIN
    } else {
        (a + b) as i64
    }
}

/// A candidate's full score: fuzzy score plus frecency bonus.
pub open spec fn total_score(
    path: Seq<char>,
    rev_pattern: Seq<char>,
    entries: Seq<(Seq<char>, i64)>,
) -> i64 {
    clamp_add(base_score(path, rev_pattern), cache_bonus(entries, path))
}

/// Whether the path holds a dot-prefixed segment (a `/` followed by a `.`).
pub open spec fn has_hidden_component(s: Seq<char>) -> bool {
    exists|i: int| 0 <= i && i + 1 < s.len() && #[trigger] s[i] == '/' && s[i + 1] == '.'
}

/// The characters after the last `/`, or the whole path when it has none.
pub open spec fn basename_spec(s: Seq<char>) -> Seq<char>
    decreases s.len(),
{
    if s.len() == 0 {
        s
    } else if s.last() == '/' {
        Seq::empty()
    } else {
        basename_spec(s.drop_last()).push(s.last())
    }
}

/// Whether some string of `names` reads `x`.
pub open spec fn names_contain(names: Seq<String>, x: Seq<char>) -> bool {
    exists|i: int| 0 <= i < names.len() && names[i]@ == x
}

/// Whether the walker skips this child: a dot-prefixed segment anywhere in
/// its path, or a basename on the ignore list.
pub open spec fn skip_child(path: Seq<char>, ignores: Seq<String>) -> bool {
    has_hidden_component(path) || names_contain(ignores, basename_spec(path))
}

/// Every space doubled into a backslash-space pair, all else kept.
pub open spec fn escape_spec(s: Seq<char>) -> Seq<char>
    decreases s.len(),
{
    if s.len() == 0 {
        Seq::empty()
    } else {
        escape_spec(s.drop_last()) + (if s.last() == ' ' {
            seq!['\\', ' ']
        } else {
            seq![s.last()]
        })
    }
}

/// A worker's local best after it weighed one child: unchanged for a skipped
/// child, else the child replaces it exactly when the child scores strictly
/// higher.
pub open spec fn step_best(
    b: (i64, Seq<char>),
    child: Seq<char>,
    ignores: Seq<String>,
    rev_pattern: Seq<char>,
    entries: Seq<(Seq<char>, i64)>,
) -> (i64, Seq<char>) {
    if skip_child(child, ignores) {
        b
    } else {
        let sc = total_score(child, rev_pattern, entries);
        if sc > b.0 {
            (sc, child)
        } else {
            b
        }
    }
}

/// A worker's local best after it weighed a whole listing, left to right.
pub open spec fn run_children(
    b: (i64, Seq<char>),
    children: Seq<Seq<char>>,
    ignores: Seq<String>,
    rev_pattern: Seq<char>,
    entries: Seq<(Seq<char>, i64)>,
) -> (i64, Seq<char>)
    decreases children.len(),
{
    if children.len() == 0 {
        b
    } else {
        step_best(
            run_children(b, children.drop_last(), ignores, rev_pattern, entries),
            children.last(),
            ignores,
            rev_pattern,
            entries,
        )
    }
}

/// The children of a listing that are not skipped, in listing order: what
/// the worker feeds back into the frontier.
pub open spec fn kept_children(children: Seq<Seq<char>>, ignores: Seq<String>) -> Seq<Seq<char>>
    decreases children.len(),
{
    if children.len() == 0 {
        Seq::empty()
    } else {
        let rest = kept_children(children.drop_last(), ignores);
        if skip_child(children.last(), ignores) {
            rest
        } else {
            rest.push(children.last())
        }
    }
}

/// The best of all workers' results: highest score, the earliest of equals;
/// score 0 and the empty path when there are none.
pub open spec fn best_of(results: Seq<(i64, Seq<char>)>) -> (i64, Seq<char>)
    decreases results.len(),
{
    if results.len() == 0 {
        (0, Seq::<char>::empty())
    } else {
        let b = best_of(results.drop_last());
        if results.last().0 > b.0 {
            results.last()
        } else {
            b
        }
    }
}

/// The scan's final answer: the best result's path, or `.` when its score is
/// under the threshold; spaces escaped either way.
pub open spec fn aggregate_spec(results: Seq<(i64, Seq<char>)>) -> Seq<char> {
    let b = best_of(results);
    escape_spec(
        if b.0 < MATCH_THRESHOLD {
            seq!['.']
        } else {
            b.1
        },
    )
}

/// The views of a sequence of worker results.
pub open spec fn result_views(results: Seq<WorkerResult>) -> Seq<(i64, Seq<char>)> {
    Seq::new(results.len(), |i: int| results[i]@)
}

/// The local best a worker starts from: score 0, empty path.
pub fn initial_result() -> (w: WorkerResult)
    ensures
        w@ == (0i64, Seq::<char>::empty()),
{
    WorkerResult { score: 0, path: String::new() }
}

/// The string read back to front.
pub fn reverse_string(s: &str) -> (r: String)
    ensures
        r@ == s@.reverse(),
{
    let n = s.unicode_len();
    let mut out = String::new();
    let mut i: usize = 0;
    while i < n
        invariant
            i <= n,
            n == s@.len(),
            out@ =~= Seq::new(i as nat, |j: int| s@[n - 1 - j]),
        decreases n - i,
    {
        let c = s.get_char(n - 1 - i);
        push_char(&mut out, c);
        i = i + 1;
    }
    assert(out@ =~= s@.reverse());
    out
}

/// The string with every space escaped for the shell.
pub fn escape_spaces(s: &str) -> (r: String)
    ensures
        r@ == escape_spec(s@),
{
    let n = s.unicode_len();
    let mut out = String::new();
    let mut i: usize = 0;
    while i < n
        invariant
            i <= n,
            n == s@.len(),
            out@ == escape_spec(s@.take(i as int)),
        decreases n - i,
    {
        let c = s.get_char(i);
        if c == ' ' {
            push_char(&mut out, '\\');
            push_char(&mut out, ' ');
        } else {
            push_char(&mut out, c);
        }
        i = i + 1;
        proof {
            let t = s@.take(i as int);
            assert(t.drop_last() =~= s@.take(i - 1));
            assert(t.last() == s@[i - 1]);
            assert(out@ =~= escape_spec(t));
        }
    }
    assert(s@.take(n as int) =~= s@);
    out
}

/// Whether the path holds a dot-prefixed segment.
pub fn has_hidden(path: &str) -> (r: bool)
    ensures
        r == has_hidden_component(path@),
{
    let n = path.unicode_len();
    if n == 0 {
        return false;
    }
    let mut i: usize = 0;
    while i < n - 1
        invariant
            1 <= n,
            i <= n,
            n == path@.len(),
            forall|j: int|
                0 <= j && j + 1 < i + 1 ==> !(#[trigger] path@[j] == '/' && path@[j + 1] == '.'),
        decreases n - i,
    {
        if path.get_char(i) == '/' && path.get_char(i + 1) == '.' {
            return true;
        }
        i = i + 1;
    }
    false
}

/// How the basename relates to a suffix that starts right after the last
/// slash.
proof fn lemma_basename_suffix(s: Seq<char>, start: int)
    requires
        0 <= start <= s.len(),
        start > 0 ==> s[start - 1] == '/',
        forall|j: int| start <= j < s.len() ==> s[j] != '/',
    ensures
        basename_spec(s) =~= s.subrange(start, s.len() as int),
    decreases s.len(),
{
    if start == s.len() {
        if s.len() > 0 {
            assert(s.last() == '/');
        }
    } else {
        assert(s[s.len() - 1] != '/');
        lemma_basename_suffix(s.drop_last(), start);
        assert(s.drop_last().subrange(start, s.len() - 1) =~= s.subrange(start, s.len() - 1));
        assert(s.subrange(start, s.len() - 1).push(s.last()) =~= s.subrange(
            start,
            s.len() as int,
        ));
    }
}

/// The last path segment: the characters after the last `/`, or the whole
/// path when it has none.
pub fn basename(path: &str) -> (r: String)
    ensures
        r@ == basename_spec(path@),
{
    let n = path.unicode_len();
    let mut start: usize = 0;
    let mut i: usize = 0;
    while i < n
        invariant
            start <= i <= n,
            n == path@.len(),
            start > 0 ==> path@[start - 1] == '/',
            forall|j: int| start <= j < i ==> path@[j] != '/',
        decreases n - i,
    {
        if path.get_char(i) == '/' {
            start = i + 1;
        }
        i = i + 1;
    }
    proof {
        lemma_basename_suffix(path@, start as int);
    }
    let r = path.substring_char(start, n);
    r.to_owned()
}

/// Whether some string of `names` reads `x`.
pub fn ignores_contain(names: &Vec<String>, x: &String) -> (r: bool)
    ensures
        r == names_contain(names@, x@),
{
    let mut i: usize = 0;
    while i < names.len()
        invariant
            i <= names.len(),
            forall|j: int| 0 <= j < i ==> names@[j]@ != x@,
        decreases names.len() - i,
    {
        if names[i].eq(x) {
            return true;
        }
        i = i + 1;
    }
    false
}

/// Whether the walker keeps this child: no dot-prefixed segment, and its
/// basename is not on the ignore list.
pub fn keep_child(path: &String, ignores: &Vec<String>) -> (r: bool)
    ensures
        r == !skip_child(path@, ignores@),
{
    if has_hidden(path.as_str()) {
        return false;
    }
    let base = basename(path.as_str());
    !ignores_contain(ignores, &base)
}

/// A candidate's full score: skim score of the reversed path against the
/// reversed pattern, plus the candidate's visit count from the cache.
pub fn score_child(path: &String, rev_pattern: &str, cache: &LinkedHashMap<String, i64>) -> (s:
    i64)
    ensures
        s == total_score(path@, rev_pattern@, lhm_entries(*cache)),
{
    let rev_line = reverse_string(path.as_str());
    let base: i64 = match skim_fuzzy_match(rev_line.as_str(), rev_pattern) {
        Some(sc) => sc,
        None => 0,
    };
    let bonus: i64 = match lhm_get(cache, path) {
        Some(v) => v,
        None => 0,
    };
    if bonus >= 0 {
        if base <= i64::MAX - bonus {
            base + bonus
        } else {
            i64::MAX
        }
    } else {
        if base >= i64::MIN - bonus {
            base + bonus
        } else {
            i64::MIN
        }
    }
}

/// Weighs one discovered child directory: a skipped child changes nothing
/// and is not enqueued; any other child is scored, replaces the local best
/// exactly when it scores strictly higher, and is enqueued.
pub fn process_child(
    best: &mut WorkerResult,
    child: String,
    ignores: &Vec<String>,
    rev_pattern: &str,
    cache: &LinkedHashMap<String, i64>,
) -> (enqueue: bool)
    ensures
        enqueue == !skip_child(child@, ignores@),
        final(best)@ == step_best(
            old(best)@,
            child@,
            ignores@,
            rev_pattern@,
            lhm_entries(*cache),
        ),
{
    if !keep_child(&child, ignores) {
        return false;
    }
    let sc = score_child(&child, rev_pattern, cache);
    if sc > best.score {
        best.score = sc;
        best.path = child;
    }
    true
}

/// One turn of a worker's loop, deciding from what the worker found at the
/// frontier.  An empty frontier, and equally a directory that could not be
/// listed, makes the worker report its current best untouched — a failed
/// listing is not an error of the scan.  A listing is weighed child by
/// child, and the children that are not skipped come back to be enqueued, in
/// listing order.
pub fn worker_step(
    best: &mut WorkerResult,
    event: WorkerEvent,
    ignores: &Vec<String>,
    rev_pattern: &str,
    cache: &LinkedHashMap<String, i64>,
) -> (action: WorkerAction)
    ensures
        !(event is Listing) ==> action is Report && *final(best) == *old(best),
        event matches WorkerEvent::Listing(children) ==> (action matches WorkerAction::Expand(
            enq,
        ) && {
            &&& final(best)@ == run_children(
                old(best)@,
                string_views(children@),
                ignores@,
                rev_pattern@,
                lhm_entries(*cache),
            )
            &&& string_views(enq@) =~= kept_children(string_views(children@), ignores@)
        }),
{
    match event {
        WorkerEvent::FrontierEmpty => WorkerAction::Report,
        WorkerEvent::ListingFailed => WorkerAction::Report,
        WorkerEvent::Listing(children) => {
            let ghost b0 = best@;
            let ghost cviews = string_views(children@);
            let mut enq: Vec<String> = Vec::new();
            let mut i: usize = 0;
            while i < children.len()
                invariant
                    i <= children.len(),
                    cviews == string_views(children@),
                    cviews.len() == children@.len(),
                    best@ == run_children(
                        b0,
                        cviews.take(i as int),
                        ignores@,
                        rev_pattern@,
                        lhm_entries(*cache),
                    ),
                    string_views(enq@) =~= kept_children(cviews.take(i as int), ignores@),
                decreases children.len() - i,
            {
                let child = children[i].clone();
                assert(child@ == cviews[i as int]);
                let keep = process_child(best, child, ignores, rev_pattern, cache);
                if keep {
                    enq.push(children[i].clone());
                }
                i = i + 1;
                proof {
                    let t = cviews.take(i as int);
                    assert(t.drop_last() =~= cviews.take(i - 1));
                    assert(t.last() == cviews[i - 1]);
                    assert(string_views(enq@) =~= kept_children(t, ignores@));
                }
            }
            proof {
                assert(cviews.take(children@.len() as int) =~= cviews);
            }
            WorkerAction::Expand(enq)
        },
    }
}

/// The fan-in of all workers' results: the highest score wins, the earliest
/// of equals; under the threshold the answer is the current directory; the
/// answer's spaces are escaped for the shell.
pub fn aggregate(results: &Vec<WorkerResult>) -> (r: String)
    ensures
        r@ == aggregate_spec(result_views(results@)),
{
    let ghost rviews = result_views(results@);
    let mut best_score: i64 = 0;
    let mut best_result: String = String::new();
    let mut i: usize = 0;
    while i < results.len()
        invariant
            i <= results.len(),
            rviews == result_views(results@),
            rviews.len() == results@.len(),
            (best_score, best_result@) == best_of(rviews.take(i as int)),
        decreases results.len() - i,
    {
        if results[i].score > best_score {
            best_score = results[i].score;
            best_result = results[i].path.clone();
        }
        i = i + 1;
        proof {
            let t = rviews.take(i as int);
            assert(t.drop_last() =~= rviews.take(i - 1));
            assert(t.last() == rviews[i - 1]);
        }
    }
    proof {
        assert(rviews.take(results@.len() as int) =~= rviews);
    }
    if best_score < MATCH_THRESHOLD {
        best_result = ".".to_owned();
        proof {
            reveal_strlit(".");
            assert(best_result@ =~= seq!['.']);
        }
    }
    escape_spaces(best_result.as_str())
}

/// A worker's local best only ever climbs: weighing a listing never lowers
/// its score.
pub proof fn lemma_run_children_monotonic(
    b: (i64, Seq<char>),
    children: Seq<Seq<char>>,
    ignores: Seq<String>,
    rev_pattern: Seq<char>,
    entries: Seq<(Seq<char>, i64)>,
)
    ensures
        run_children(b, children, ignores, rev_pattern, entries).0 >= b.0,
    decreases children.len(),
{
    if children.len() > 0 {
        lemma_run_children_monotonic(b, children.drop_last(), ignores, rev_pattern, entries);
    }
}

/// Escaping leaves no bare space: every space in the escaped text sits right
/// after a backslash.
pub proof fn lemma_escape_no_bare_space(s: Seq<char>)
    ensures
        forall|i: int|
            0 <= i < escape_spec(s).len() && #[trigger] escape_spec(s)[i] == ' ' ==> i > 0
                && escape_spec(s)[i - 1] == '\\',
    decreases s.len(),
{
    if s.len() > 0 {
        lemma_escape_no_bare_space(s.drop_last());
        let e = escape_spec(s);
        let prev = escape_spec(s.drop_last());
        assert forall|i: int| 0 <= i < e.len() && #[trigger] e[i] == ' ' implies i > 0 && e[i - 1]
            == '\\' by {
            if i < prev.len() {
                assert(e[i] == prev[i]);
                assert(prev[i - 1] == e[i - 1]);
            } else {
                if s.last() == ' ' {
                    assert(e[prev.len() as int] == '\\');
                    assert(e[prev.len() as int + 1] == ' ');
                } else {
                    assert(e[prev.len() as int] == s.last());
                }
            }
        }
    }
}

/// Escaping a text without spaces returns it unchanged.
pub proof fn lemma_escape_without_spaces(s: Seq<char>)
    requires
        forall|i: int| 0 <= i < s.len() ==> s[i] != ' ',
    ensures
        escape_spec(s) =~= s,
    decreases s.len(),
{
    if s.len() > 0 {
        lemma_escape_without_spaces(s.drop_last());
    }
}

/// What the fan-in's best can be: never below 0 nor below any single result,
/// and — when anything scored above 0 — one of the results itself.
pub proof fn lemma_best_of_props(results: Seq<(i64, Seq<char>)>)
    ensures
        best_of(results).0 >= 0,
        forall|j: int| 0 <= j < results.len() ==> best_of(results).0 >= #[trigger] results[j].0,
        best_of(results).0 > 0 ==> exists|j: int|
            0 <= j < results.len() && best_of(results) == #[trigger] results[j],
    decreases results.len(),
{
    if results.len() > 0 {
        lemma_best_of_props(results.drop_last());
        let b = best_of(results.drop_last());
        assert forall|j: int| 0 <= j < results.len() implies best_of(results).0
            >= #[trigger] results[j].0 by {
            if j < results.len() - 1 {
                assert(results.drop_last()[j] == results[j]);
            }
        }
        if best_of(results).0 > 0 {
            if results.last().0 > b.0 {
                assert(best_of(results) == results[results.len() - 1]);
            } else {
                let j = choose|j: int|
                    0 <= j < results.drop_last().len() && b == #[trigger] results.drop_last()[j];
                assert(best_of(results) == results[j]);
            }
        }
    }
}

/// A result that scores strictly above every other one, and above zero, is
/// the fan-in's best.
pub proof fn lemma_best_of_strict_winner(results: Seq<(i64, Seq<char>)>, k: int)
    requires
        0 <= k < results.len(),
        forall|j: int|
            0 <= j < results.len() && j != k ==> #[trigger] results[j].0 < results[k].0,
        results[k].0 > 0,
    ensures
        best_of(results) == results[k],
{
    lemma_best_of_props(results);
    assert(best_of(results).0 >= results[k].0);
    let j = choose|j: int| 0 <= j < results.len() && best_of(results) == #[trigger] results[j];
    assert(j == k);
}

/// A result that scores at least the threshold and strictly above every
/// other one is the scan's answer, up to space escaping.
pub proof fn lemma_aggregate_strict_winner(results: Seq<(i64, Seq<char>)>, k: int)
    requires
        0 <= k < results.len(),
        forall|j: int|
            0 <= j < results.len() && j != k ==> #[trigger] results[j].0 < results[k].0,
        results[k].0 >= MATCH_THRESHOLD,
    ensures
        aggregate_spec(results) == escape_spec(results[k].1),
{
    lemma_best_of_strict_winner(results, k);
}

/// A scan whose best score is under the threshold answers the current
/// directory, whatever paths were seen.
pub proof fn lemma_below_threshold_falls_back(results: Seq<(i64, Seq<char>)>)
    requires
        best_of(results).0 < MATCH_THRESHOLD,
    ensures
        aggregate_spec(results) =~= seq!['.'],
{
    assert(escape_spec(seq!['.']) =~= seq!['.']) by {
        let dot = seq!['.'];
        assert(dot.len() == 1);
        assert(dot.last() == '.');
        assert(dot.drop_last() =~= Seq::<char>::empty());
        assert(escape_spec(Seq::<char>::empty()) =~= Seq::<char>::empty());
        assert(escape_spec(dot) =~= escape_spec(dot.drop_last()) + seq![dot.last()]);
    }
}

/// The frecency bonus decides: when a candidate's bonus more than covers its
/// fuzzy-score shortfall against an uncached rival, the cached candidate
/// scores strictly higher — with an equal or even lower raw fuzzy score.
pub proof fn lemma_cache_bonus_wins(
    cached: Seq<char>,
    rival: Seq<char>,
    rev_pattern: Seq<char>,
    entries: Seq<(Seq<char>, i64)>,
)
    requires
        cache_bonus(entries, rival) == 0,
        base_score(cached, rev_pattern) + cache_bonus(entries, cached) > base_score(
            rival,
            rev_pattern,
        ),
        base_score(cached, rev_pattern) + cache_bonus(entries, cached) <= i64::MAX,
    ensures
        total_score(cached, rev_pattern, entries) > total_score(rival, rev_pattern, entries),
{
}

} // verus!
