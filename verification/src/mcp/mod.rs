//! The decisions behind the MCP tools: which challenges to list and in what
//! order, input checks, what a sync still has to fetch, the workspace status,
//! and the texts the tools answer with.
pub mod sync_run;
pub mod types;

use vstd::prelude::*;
use vstd::string::*;

use crate::clock::{current_time, is_clock_reading, Timestamp};
use crate::mcp::types::{ChallengesParams, QueueUpdateParams, SubmitFlagParams, UnlockHintParams};
use crate::platform::types::{opt_str_view, strs_view, Challenge, ChallengeView, HintView, SubmitResult};
use crate::sorting::{is_stable_arrangement, is_stable_sort_of, sorted_by_rank, stable_sort, views, Ranked};
use crate::tally::{
    count_cat, count_cat_solved, count_solved_items, is_category_index, lemma_cat_points_bound,
    lemma_count_bounds, lemma_index_step, lemma_sum_points_prefix, lemma_totals_bounds,
    locate_category, sum_cat_points, sum_points, sum_solved_points, TallyItem,
};
use crate::text::{
    decimal, decimal_string, lemma_lex_asymmetric, lemma_lex_irreflexive, lemma_lex_total,
    lemma_lex_transitive, lex_lt, lowercase, str_eq, str_less, to_lowercase, trim, trimmed,
};
use crate::workspace::orchestration::{queue_names, without, FailedView, OrchestrationState, QueuedChallenge};
use crate::workspace::state::{ChallengeState, ChallengeStateView, WorkspaceState};

verus! {

/// A tool request the tools refuse, before any call to the platform.
#[derive(Debug, Clone, PartialEq, Eq)]
pub enum ToolError {
    EmptyFlag,
    EmptyChallengeName,
    EmptyHintId,
    /// The named challenge has no record in the workspace state.
    ChallengeNotInState(String),
}

/// The text of each refusal.
pub open spec fn tool_error_text(e: ToolError) -> Seq<char> {
    match e {
        ToolError::EmptyFlag => "Flag cannot be empty"@,
        ToolError::EmptyChallengeName => "Challenge name cannot be empty"@,
        ToolError::EmptyHintId => "Hint ID cannot be empty"@,
        ToolError::ChallengeNotInState(name) => "Challenge '"@ + name@
            + "' not found in state. Submit the flag first."@,
    }
}

impl ToolError {
    /// The message the tool answers with.
    pub fn message(&self) -> (r: String)
        ensures
            r@ == tool_error_text(*self),
    {
        match self {
            ToolError::EmptyFlag => String::from_str("Flag cannot be empty"),
            ToolError::EmptyChallengeName => String::from_str("Challenge name cannot be empty"),
            ToolError::EmptyHintId => String::from_str("Hint ID cannot be empty"),
            ToolError::ChallengeNotInState(name) => {
                let mut r = String::from_str("Challenge '");
                r.append(name.as_str());
                r.append("' not found in state. Submit the flag first.");
                r
            },
        }
    }
}

// ---------------------------------------------------------------------------
// Listing challenges
// ---------------------------------------------------------------------------

/// The listing order: by category, then by name.
pub open spec fn listing_before(a: ChallengeView, b: ChallengeView) -> bool {
    ||| lex_lt(a.category, b.category)
    ||| a.category == b.category && lex_lt(a.name, b.name)
}

proof fn lemma_listing_facts(a: ChallengeView, b: ChallengeView, c: ChallengeView)
    ensures
        listing_before(a, b) ==> !listing_before(b, a),
        listing_before(a, b) && listing_before(b, c) ==> listing_before(a, c),
        listing_before(a, c) ==> listing_before(a, b) || listing_before(b, c),
{
    lemma_lex_asymmetric(a.category, b.category);
    lemma_lex_asymmetric(a.name, b.name);
    lemma_lex_irreflexive(a.category);
    lemma_lex_irreflexive(b.category);
    lemma_lex_irreflexive(a.name);
    lemma_lex_irreflexive(b.name);
    lemma_lex_transitive(a.category, b.category, c.category);
    lemma_lex_transitive(a.name, b.name, c.name);
    lemma_lex_transitive(b.category, a.category, c.category);
    lemma_lex_transitive(b.name, a.name, c.name);
    lemma_lex_transitive(a.category, c.category, b.category);
    lemma_lex_transitive(a.name, c.name, b.name);
    lemma_lex_total(a.category, b.category);
    lemma_lex_total(a.name, b.name);
    lemma_lex_total(b.category, c.category);
    lemma_lex_total(b.name, c.name);
}

impl Ranked for Challenge {
    open spec fn ranks_before(a: ChallengeView, b: ChallengeView) -> bool {
        listing_before(a, b)
    }

    proof fn lemma_ranks_asymmetric(a: ChallengeView, b: ChallengeView) {
        lemma_listing_facts(a, b, b);
    }

    proof fn lemma_ranks_transitive(a: ChallengeView, b: ChallengeView, c: ChallengeView) {
        lemma_listing_facts(a, b, c);
    }

    proof fn lemma_ranks_negatively_transitive(a: ChallengeView, b: ChallengeView, c: ChallengeView) {
        lemma_listing_facts(a, b, c);
    }

    fn before(&self, other: &Self) -> (r: bool) {
        if str_less(self.category.as_str(), other.category.as_str()) {
            return true;
        }
        if str_less(other.category.as_str(), self.category.as_str()) {
            return false;
        }
        proof {
            lemma_lex_total(self.category@, other.category@);
        }
        str_less(self.name.as_str(), other.name.as_str())
    }
}

/// The listing order of a sorted list: wherever two challenges stand in the
/// output of a sort by listing rank, the smaller category (in code-point
/// order) comes first, and within a category the smaller name.
pub proof fn lemma_listing_sorted_order(out: Seq<ChallengeView>, inp: Seq<ChallengeView>, i: int, j: int)
    requires
        is_stable_sort_of::<Challenge>(out, inp),
        0 <= i < out.len(),
        0 <= j < out.len(),
    ensures
        lex_lt(out[i].category, out[j].category) ==> i < j,
        out[i].category == out[j].category && lex_lt(out[i].name, out[j].name) ==> i < j,
{
    let idx = choose|idx: Seq<int>| is_stable_arrangement::<Challenge>(out, inp, idx);
    assert(sorted_by_rank::<Challenge>(out));
    lemma_lex_irreflexive(out[i].category);
    lemma_lex_irreflexive(out[i].name);
    if j < i {
        assert(!<Challenge as Ranked>::ranks_before(out[i], out[j]));
    }
}

/// Whether a challenge passes the listing filters: its category equals the
/// requested one ignoring case, it is unsolved if only unsolved ones are asked
/// for, and solved if only solved ones are.
pub open spec fn passes_filters(c: ChallengeView, params: ChallengesParams) -> bool {
    passes_filters_keyed(
        c,
        lowercase(c.category),
        match params.category {
            Some(cat) => Some(lowercase(cat@)),
            None => None,
        },
        params,
    )
}

/// Whether a challenge passes the listing filters, given its category as
/// compared (`category_key`) and the requested category as compared
/// (`wanted_key`, if one is requested).
pub open spec fn passes_filters_keyed(
    c: ChallengeView,
    category_key: Seq<char>,
    wanted_key: Option<Seq<char>>,
    params: ChallengesParams,
) -> bool {
    &&& match wanted_key {
        Some(w) => category_key == w,
        None => true,
    }
    &&& (params.unsolved == Some(true) ==> !c.solved_by_me)
    &&& (params.solved == Some(true) ==> c.solved_by_me)
}

/// The listing filters: a challenge passes when its category, compared
/// ignoring case, is the one requested (any, when none is); when only
/// unsolved ones are asked for (`unsolved` is `Some(true)`) it must be
/// unsolved; when only solved ones are (`solved` is `Some(true)`) it must be
/// solved. A flag that is `Some(false)` filters nothing, just as `None`.
pub proof fn lemma_filters_laws(c: ChallengeView, params: ChallengesParams)
    ensures
        passes_filters(c, params) <==> ((match params.category {
            Some(cat) => lowercase(c.category) == lowercase(cat@),
            None => true,
        }) && (params.unsolved == Some(true) ==> !c.solved_by_me) && (params.solved == Some(true)
            ==> c.solved_by_me)),
        passes_filters(c, ChallengesParams { solved: Some(false), ..params }) == passes_filters(
            c,
            ChallengesParams { solved: None, ..params },
        ),
        passes_filters(c, ChallengesParams { unsolved: Some(false), ..params }) == passes_filters(
            c,
            ChallengesParams { unsolved: None, ..params },
        ),
        passes_filters(c, ChallengesParams { category: None, unsolved: None, solved: None }),
{
}

/// The same filters with the categories as compared: with no category
/// requested every category passes, a requested one must equal the
/// challenge's, and the flags as above.
pub proof fn lemma_filters_keyed_laws(
    c: ChallengeView,
    category_key: Seq<char>,
    wanted_key: Option<Seq<char>>,
    params: ChallengesParams,
)
    ensures
        passes_filters_keyed(c, category_key, wanted_key, params) <==> ((match wanted_key {
            Some(w) => category_key == w,
            None => true,
        }) && (params.unsolved == Some(true) ==> !c.solved_by_me) && (params.solved == Some(true)
            ==> c.solved_by_me)),
{
}

/// Whether `c` is listed, given its category as compared and the requested
/// category as compared.
pub fn keep_challenge(
    c: &Challenge,
    category_key: &str,
    wanted_key: &Option<String>,
    params: &ChallengesParams,
) -> (r: bool)
    ensures
        r == passes_filters_keyed(c@, category_key@, opt_str_view(*wanted_key), *params),
{
    let cat_ok = match wanted_key {
        Some(w) => str_eq(category_key, w.as_str()),
        None => true,
    };
    let only_unsolved = match params.unsolved {
        Some(b) => b,
        None => false,
    };
    let only_solved = match params.solved {
        Some(b) => b,
        None => false,
    };
    cat_ok && (!only_unsolved || !c.solved_by_me) && (!only_solved || c.solved_by_me)
}

/// The challenges that pass the filters, by category and then name; challenges
/// that tie keep the order the platform listed them in.
pub fn select_challenges(challenges: Vec<Challenge>, params: &ChallengesParams) -> (r: Vec<Challenge>)
    ensures
        is_stable_sort_of::<Challenge>(
            views(r@),
            views(challenges@).filter(|c: ChallengeView| passes_filters(c, *params)),
        ),
{
    let ghost inp = views(challenges@);
    let ghost pred = |c: ChallengeView| passes_filters(c, *params);
    let cat_lower: Option<String> = match &params.category {
        Some(cat) => Some(to_lowercase(cat.as_str())),
        None => None,
    };
    let n = challenges.len();
    let mut rest = challenges;
    let mut kept: Vec<Challenge> = Vec::new();
    let mut i: usize = 0;
    while i < n
        invariant
            n == inp.len(),
            i <= n,
            views(rest@) == inp.skip(i as int),
            views(kept@) == inp.take(i as int).filter(pred),
            pred == (|c: ChallengeView| passes_filters(c, *params)),
            opt_str_view(cat_lower) == (match params.category {
                Some(cat) => Some(lowercase(cat@)),
                None => None,
            }),
        decreases n - i,
    {
        let ghost r0 = rest@;
        assert(views(r0).len() == r0.len());
        assert(views(r0)[0] == inp[i as int]);
        let c = rest.remove(0);
        assert(rest@ == r0.remove(0));
        assert forall|j: int| 0 <= j < views(rest@).len() implies views(rest@)[j] == inp.skip(i + 1)[j] by {
            assert(views(rest@)[j] == views(r0)[j + 1]);
        }
        assert(views(rest@) =~= inp.skip(i + 1));
        let category_key = to_lowercase(c.category.as_str());
        let keep = keep_challenge(&c, category_key.as_str(), &cat_lower, params);
        proof {
            assert(keep == pred(c@));
            assert(inp.take(i + 1).drop_last() =~= inp.take(i as int));
            reveal_with_fuel(Seq::filter, 1);
        }
        if keep {
            kept.push(c);
        }
        assert(views(kept@) =~= inp.take(i + 1).filter(pred));
        i = i + 1;
    }
    assert(inp.take(n as int) =~= inp);
    stable_sort(kept)
}

// ---------------------------------------------------------------------------
// Submitting flags
// ---------------------------------------------------------------------------

/// Checks a submission: the flag and the challenge name, trimmed, must not be
/// empty (the flag is checked first). Returns both trimmed.
pub fn validate_submission(params: &SubmitFlagParams) -> (r: Result<(String, String), ToolError>)
    ensures
        match r {
            Ok((flag, name)) => flag@ == trimmed(params.flag@) && name@ == trimmed(params.challenge@)
                && flag@.len() > 0 && name@.len() > 0,
            Err(e) => (e == ToolError::EmptyFlag && trimmed(params.flag@).len() == 0) || (e
                == ToolError::EmptyChallengeName && trimmed(params.flag@).len() > 0 && trimmed(
                params.challenge@,
            ).len() == 0),
        },
{
    let flag = trim(params.flag.as_str());
    if flag.unicode_len() == 0 {
        return Err(ToolError::EmptyFlag);
    }
    let name = trim(params.challenge.as_str());
    if name.unicode_len() == 0 {
        return Err(ToolError::EmptyChallengeName);
    }
    Ok((String::from_str(flag), String::from_str(name)))
}

/// The solve to record after a submission: the challenge name and points the
/// platform reported, when the flag was correct.
pub fn solve_to_record(result: &SubmitResult) -> (r: Option<(String, u32)>)
    ensures
        match result {
            SubmitResult::Correct { challenge, points } => match r {
                Some((name, p)) => name@ == challenge@ && p == *points,
                None => false,
            },
            _ => r is None,
        },
{
    match result {
        SubmitResult::Correct { challenge, points } => Some((challenge.clone(), *points)),
        _ => None,
    }
}

/// Checks a hint id: trimmed, it must not be empty. Returns it trimmed.
pub fn validate_hint_id(params: &UnlockHintParams) -> (r: Result<String, ToolError>)
    ensures
        match r {
            Ok(id) => id@ == trimmed(params.hint_id@) && id@.len() > 0,
            Err(e) => e == ToolError::EmptyHintId && trimmed(params.hint_id@).len() == 0,
        },
{
    let id = trim(params.hint_id.as_str());
    if id.unicode_len() == 0 {
        return Err(ToolError::EmptyHintId);
    }
    Ok(String::from_str(id))
}

// ---------------------------------------------------------------------------
// Full sync: free hints
// ---------------------------------------------------------------------------

/// A hint that costs nothing but is still locked (its content is not known).
pub open spec fn is_free_locked(h: HintView) -> bool {
    h.cost == 0 && h.content is None
}

/// The ids of the free locked hints of `cs`, challenge by challenge, each
/// challenge's in hint order.
pub open spec fn free_locked_hint_ids(cs: Seq<ChallengeView>) -> Seq<Seq<char>>
    decreases cs.len(),
{
    if cs.len() == 0 {
        Seq::empty()
    } else {
        free_locked_hint_ids(cs.drop_last()) + cs.last().hints.filter(|h: HintView| is_free_locked(h)).map_values(
            |h: HintView| h.id,
        )
    }
}

/// The free locked hints of a list of challenges are those of each challenge
/// in turn; a challenge without hints has none; and a hint added at the end of
/// a challenge's hints adds its id at the end exactly when it costs nothing
/// and its content is unknown.
pub proof fn lemma_free_hints_laws(cs: Seq<ChallengeView>, c: ChallengeView, h: HintView)
    ensures
        free_locked_hint_ids(Seq::<ChallengeView>::empty()) == Seq::<Seq<char>>::empty(),
        free_locked_hint_ids(cs.push(c)) == free_locked_hint_ids(cs) + free_locked_hint_ids(seq![c]),
        free_locked_hint_ids(seq![ChallengeView { hints: Seq::empty(), ..c }]) == Seq::<Seq<char>>::empty(),
        free_locked_hint_ids(seq![ChallengeView { hints: c.hints.push(h), ..c }]) == free_locked_hint_ids(
            seq![c],
        ) + (if h.cost == 0 && h.content is None {
            seq![h.id]
        } else {
            Seq::<Seq<char>>::empty()
        }),
{
    let pred = |x: HintView| is_free_locked(x);
    let hid = |x: HintView| x.id;
    assert(cs.push(c).drop_last() =~= cs);
    assert(seq![c].drop_last() =~= Seq::<ChallengeView>::empty());
    let e = ChallengeView { hints: Seq::empty(), ..c };
    assert(seq![e].drop_last() =~= Seq::<ChallengeView>::empty());
    assert(Seq::<HintView>::empty().filter(pred) =~= Seq::<HintView>::empty());
    assert(Seq::<HintView>::empty().filter(pred).map_values(hid) =~= Seq::<Seq<char>>::empty());
    let d = ChallengeView { hints: c.hints.push(h), ..c };
    assert(seq![d].drop_last() =~= Seq::<ChallengeView>::empty());
    assert(c.hints.push(h).drop_last() =~= c.hints);
    reveal_with_fuel(Seq::filter, 1);
    let f0 = c.hints.filter(pred);
    if is_free_locked(h) {
        assert(c.hints.push(h).filter(pred) == f0.push(h));
        assert(f0.push(h).map_values(hid) =~= f0.map_values(hid) + seq![h.id]);
    } else {
        assert(c.hints.push(h).filter(pred) == f0);
        assert(f0.map_values(hid) =~= f0.map_values(hid) + Seq::<Seq<char>>::empty());
    }
    assert(Seq::<Seq<char>>::empty() + c.hints.filter(pred).map_values(hid) =~= c.hints.filter(pred).map_values(hid));
    assert(Seq::<Seq<char>>::empty() + d.hints.filter(pred).map_values(hid) =~= d.hints.filter(pred).map_values(hid));
}

/// A challenge is fetched again after the unlocking exactly when it offers a
/// free locked hint, that is when some hint of it costs nothing and has no
/// content yet.
pub proof fn lemma_refetch_iff_free_hint(c: ChallengeView)
    ensures
        has_free_locked(c) <==> exists|j: int|
            0 <= j < c.hints.len() && (#[trigger] c.hints[j]).cost == 0 && c.hints[j].content is None,
        has_free_locked(c) <==> free_locked_hint_ids(seq![c]).len() > 0,
{
    let pred = |h: HintView| is_free_locked(h);
    let hid = |h: HintView| h.id;
    assert(seq![c].drop_last() =~= Seq::<ChallengeView>::empty());
    assert(seq![c].last() == c);
    assert(free_locked_hint_ids(Seq::<ChallengeView>::empty()) == Seq::<Seq<char>>::empty());
    assert(Seq::<Seq<char>>::empty() + c.hints.filter(pred).map_values(hid) =~= c.hints.filter(pred).map_values(
        hid,
    ));
    assert(free_locked_hint_ids(seq![c]) == c.hints.filter(pred).map_values(hid));
    if has_free_locked(c) {
        let j = choose|j: int| 0 <= j < c.hints.len() && is_free_locked(#[trigger] c.hints[j]);
        c.hints.lemma_filter_contains(pred, j);
    }
    if c.hints.filter(pred).len() > 0 {
        c.hints.lemma_filter_pred(pred, 0);
        let h = c.hints.filter(pred)[0];
        assert(c.hints.filter(pred).contains(h));
        c.hints.lemma_filter_contains_rev(pred, h);
        let j = choose|j: int| 0 <= j < c.hints.len() && c.hints[j] == h;
        assert(is_free_locked(c.hints[j]));
    }
}

/// The hints a full sync unlocks on its own: those that cost nothing and are
/// still locked, in order.
pub fn free_hints_to_unlock(detailed: &Vec<Challenge>) -> (r: Vec<String>)
    ensures
        strs_view(r@) == free_locked_hint_ids(views(detailed@)),
{
    let ghost cs = views(detailed@);
    let ghost pred = |h: HintView| is_free_locked(h);
    let ghost hid = |h: HintView| h.id;
    let mut out: Vec<String> = Vec::new();
    let mut i: usize = 0;
    while i < detailed.len()
        invariant
            cs == views(detailed@),
            pred == (|h: HintView| is_free_locked(h)),
            hid == (|h: HintView| h.id),
            i <= detailed@.len(),
            strs_view(out@) == free_locked_hint_ids(cs.take(i as int)),
        decreases detailed@.len() - i,
    {
        let c = &detailed[i];
        let ghost hs = c@.hints;
        let ghost base = strs_view(out@);
        let mut j: usize = 0;
        while j < c.hints.len()
            invariant
                hs == c@.hints,
                pred == (|h: HintView| is_free_locked(h)),
                hid == (|h: HintView| h.id),
                j <= c.hints@.len(),
                strs_view(out@) == base + hs.take(j as int).filter(pred).map_values(hid),
            decreases c.hints@.len() - j,
        {
            let h = &c.hints[j];
            let ghost prev = out@;
            let free = h.cost == 0 && h.content.is_none();
            if free {
                out.push(h.id.clone());
            }
            proof {
                assert(hs[j as int] == h@);
                assert(hs.take(j + 1).drop_last() =~= hs.take(j as int));
                reveal_with_fuel(Seq::filter, 1);
                let f0 = hs.take(j as int).filter(pred);
                if free {
                    assert(hs.take(j + 1).filter(pred) == f0.push(h@));
                    assert(f0.push(h@).map_values(hid) =~= f0.map_values(hid).push(h@.id));
                    assert(strs_view(out@) =~= strs_view(prev).push(h@.id));
                } else {
                    assert(hs.take(j + 1).filter(pred) == f0);
                    assert(strs_view(out@) =~= strs_view(prev));
                }
                assert(strs_view(out@) =~= base + hs.take(j + 1).filter(pred).map_values(hid));
            }
            j = j + 1;
        }
        proof {
            assert(hs.take(j as int) =~= hs);
            assert(cs.take(i + 1).drop_last() =~= cs.take(i as int));
            assert(cs.take(i + 1).last() == c@);
            assert(free_locked_hint_ids(cs.take(i + 1)) == free_locked_hint_ids(cs.take(i as int)) + hs.filter(pred).map_values(hid));
        }
        i = i + 1;
    }
    assert(cs.take(i as int) =~= cs);
    out
}

/// Whether a challenge has a free locked hint.
pub open spec fn has_free_locked(c: ChallengeView) -> bool {
    exists|j: int| 0 <= j < c.hints.len() && is_free_locked(#[trigger] c.hints[j])
}

fn any_free_locked(c: &Challenge) -> (r: bool)
    ensures
        r == has_free_locked(c@),
{
    let mut j: usize = 0;
    while j < c.hints.len()
        invariant
            j <= c.hints@.len(),
            forall|k: int| 0 <= k < j ==> !is_free_locked(#[trigger] c@.hints[k]),
        decreases c.hints@.len() - j,
    {
        if c.hints[j].cost == 0 && c.hints[j].content.is_none() {
            assert(is_free_locked(c@.hints[j as int]));
            return true;
        }
        j = j + 1;
    }
    false
}

/// The ids, in order, of the challenges with a free locked hint: those whose
/// details are fetched again after the free hints were unlocked.
pub fn challenges_to_refetch(detailed: &Vec<Challenge>) -> (r: Vec<String>)
    ensures
        strs_view(r@) == views(detailed@).filter(|c: ChallengeView| has_free_locked(c)).map_values(
            |c: ChallengeView| c.id,
        ),
{
    let ghost cs = views(detailed@);
    let ghost pred = |c: ChallengeView| has_free_locked(c);
    let ghost cid = |c: ChallengeView| c.id;
    let mut out: Vec<String> = Vec::new();
    let mut i: usize = 0;
    while i < detailed.len()
        invariant
            cs == views(detailed@),
            pred == (|c: ChallengeView| has_free_locked(c)),
            cid == (|c: ChallengeView| c.id),
            i <= detailed@.len(),
            strs_view(out@) == cs.take(i as int).filter(pred).map_values(cid),
        decreases detailed@.len() - i,
    {
        let ghost prev = out@;
        let keep = any_free_locked(&detailed[i]);
        if keep {
            out.push(detailed[i].id.clone());
        }
        proof {
            let c = cs[i as int];
            assert(c == detailed@[i as int]@);
            assert(cs.take(i + 1).drop_last() =~= cs.take(i as int));
            reveal_with_fuel(Seq::filter, 1);
            let f0 = cs.take(i as int).filter(pred);
            if keep {
                assert(cs.take(i + 1).filter(pred) == f0.push(c));
                assert(f0.push(c).map_values(cid) =~= f0.map_values(cid).push(c.id));
                assert(strs_view(out@) =~= strs_view(prev).push(c.id));
            } else {
                assert(cs.take(i + 1).filter(pred) == f0);
                assert(strs_view(out@) =~= strs_view(prev));
            }
        }
        i = i + 1;
    }
    assert(cs.take(i as int) =~= cs);
    out
}

/// Puts `refreshed` in place of the first challenge with id `id`, if any, and
/// returns its position.
pub fn replace_challenge(detailed: &mut Vec<Challenge>, id: &str, refreshed: Challenge) -> (r: Option<usize>)
    ensures
        match r {
            Some(j) => j < old(detailed)@.len() && old(detailed)@[j as int].id@ == id@ && (forall|k: int|
                0 <= k < j ==> (#[trigger] old(detailed)@[k]).id@ != id@) && views(final(detailed)@)
                == views(old(detailed)@).update(j as int, refreshed@),
            None => (forall|k: int| 0 <= k < old(detailed)@.len() ==> (#[trigger] old(detailed)@[k]).id@ != id@)
                && final(detailed)@ == old(detailed)@,
        },
{
    let mut j: usize = 0;
    while j < detailed.len()
        invariant
            j <= detailed@.len(),
            detailed@ == old(detailed)@,
            forall|k: int| 0 <= k < j ==> (#[trigger] detailed@[k]).id@ != id@,
        decreases detailed@.len() - j,
    {
        if str_eq(detailed[j].id.as_str(), id) {
            let ghost before = detailed@;
            detailed.remove(j);
            detailed.insert(j, refreshed);
            assert(views(detailed@) =~= views(before).update(j as int, refreshed@));
            return Some(j);
        }
        j = j + 1;
    }
    None
}

/// The summary a sync answers with.
pub open spec fn sync_summary_text(
    total: nat,
    new_count: nat,
    file_count: nat,
    is_full: bool,
    hints_unlocked: nat,
    notif_count: nat,
) -> Seq<char> {
    "Synced "@ + decimal(total) + " challenges ("@ + decimal(new_count) + " new, "@ + decimal(file_count)
        + " files downloaded)"@ + (if is_full {
        " with full details cached"@
    } else {
        Seq::empty()
    }) + (if hints_unlocked > 0 {
        ", "@ + decimal(hints_unlocked) + " free hints unlocked"@
    } else {
        Seq::empty()
    }) + (if notif_count > 0 {
        ", "@ + decimal(notif_count) + " notifications fetched"@
    } else {
        Seq::empty()
    })
}

/// Writes the summary of a sync: how many challenges, how many new, how many
/// files downloaded, and, where they apply, the full-details note, the free
/// hints unlocked and the notifications fetched.
pub fn sync_summary(
    total: usize,
    new_count: u32,
    file_count: u32,
    is_full: bool,
    hints_unlocked: u32,
    notif_count: usize,
) -> (r: String)
    ensures
        r@ == sync_summary_text(
            total as nat,
            new_count as nat,
            file_count as nat,
            is_full,
            hints_unlocked as nat,
            notif_count as nat,
        ),
{
    let mut r = String::from_str("Synced ");
    r.append(decimal_string(total as u64).as_str());
    r.append(" challenges (");
    r.append(decimal_string(new_count as u64).as_str());
    r.append(" new, ");
    r.append(decimal_string(file_count as u64).as_str());
    r.append(" files downloaded)");
    let ghost head = r@;
    if is_full {
        r.append(" with full details cached");
    }
    let ghost with_full = r@;
    if hints_unlocked > 0 {
        r.append(", ");
        r.append(decimal_string(hints_unlocked as u64).as_str());
        r.append(" free hints unlocked");
    }
    let ghost with_hints = r@;
    if notif_count > 0 {
        r.append(", ");
        r.append(decimal_string(notif_count as u64).as_str());
        r.append(" notifications fetched");
    }
    assert(r@ =~= sync_summary_text(
        total as nat,
        new_count as nat,
        file_count as nat,
        is_full,
        hints_unlocked as nat,
        notif_count as nat,
    ));
    r
}

// ---------------------------------------------------------------------------
// Workspace status
// ---------------------------------------------------------------------------

/// Progress in one category.
#[derive(Debug, Clone)]
pub struct CategoryStatus {
    pub name: String,
    pub solved: u32,
    pub total: u32,
    pub points: u32,
}

/// Challenge counts and points over the whole competition, and per category
/// in category order.
#[derive(Debug, Clone)]
pub struct WorkspaceStatus {
    pub total: usize,
    pub solved: usize,
    pub total_points: u32,
    pub solved_points: u32,
    pub categories: Vec<CategoryStatus>,
}

/// What the status tally reads of each challenge.
pub open spec fn challenge_tally_items(cs: Seq<ChallengeView>) -> Seq<TallyItem> {
    cs.map_values(|c: ChallengeView| (c.category, c.solved_by_me, c.value as nat))
}

pub open spec fn status_names(rows: Seq<CategoryStatus>) -> Seq<Seq<char>> {
    rows.map_values(|r: CategoryStatus| r.name@)
}

/// Counts and sums the challenges, overall and per category. The sums are in
/// `u32`, so the values of all challenges together must fit in one.
pub fn workspace_status(challenges: &[Challenge]) -> (r: WorkspaceStatus)
    requires
        challenges@.len() <= u32::MAX,
        sum_points(challenge_tally_items(views(challenges@))) <= u32::MAX,
    ensures
        ({
            let items = challenge_tally_items(views(challenges@));
            &&& r.total == challenges@.len()
            &&& r.solved == count_solved_items(items)
            &&& r.total_points == sum_points(items)
            &&& r.solved_points == sum_solved_points(items)
            &&& is_category_index(status_names(r.categories@), items)
            &&& forall|k: int|
                #![trigger r.categories@[k]]
                0 <= k < r.categories@.len() ==> {
                    let row = r.categories@[k];
                    &&& row.solved == count_cat_solved(items, row.name@)
                    &&& row.total == count_cat(items, row.name@)
                    &&& row.points == sum_cat_points(items, row.name@)
                }
        }),
{
    let ghost items = challenge_tally_items(views(challenges@));
    let n = challenges.len();
    let mut solved: usize = 0;
    let mut total_points: u32 = 0;
    let mut solved_points: u32 = 0;
    let mut rows: Vec<CategoryStatus> = Vec::new();
    let mut names: Vec<String> = Vec::new();
    let mut i: usize = 0;
    while i < n
        invariant
            n == items.len(),
            n == challenges@.len(),
            n <= u32::MAX,
            items == challenge_tally_items(views(challenges@)),
            sum_points(items) <= u32::MAX,
            i <= n,
            solved == count_solved_items(items.take(i as int)),
            total_points == sum_points(items.take(i as int)),
            solved_points == sum_solved_points(items.take(i as int)),
            rows@.len() == names@.len(),
            forall|k: int| 0 <= k < rows@.len() ==> (#[trigger] rows@[k]).name@ == names@[k]@,
            is_category_index(status_names(rows@), items.take(i as int)),
            forall|k: int|
                #![trigger rows@[k]]
                0 <= k < rows@.len() ==> {
                    &&& rows@[k].solved == count_cat_solved(items.take(i as int), rows@[k].name@)
                    &&& rows@[k].total == count_cat(items.take(i as int), rows@[k].name@)
                    &&& rows@[k].points == sum_cat_points(items.take(i as int), rows@[k].name@)
                },
        decreases n - i,
    {
        let ghost before = items.take(i as int);
        let ghost after = items.take(i + 1);
        let ghost prev_names = status_names(rows@);
        let ghost prev_rows = rows@;
        let c = &challenges[i];
        proof {
            assert(after.drop_last() =~= before);
            assert(status_names(rows@) =~= names@.map_values(|s: String| s@));
            assert(after.last() == (c@.category, c.solved_by_me, c.value as nat));
            lemma_sum_points_prefix(items, i + 1);
            lemma_totals_bounds(before);
            lemma_totals_bounds(after);
            lemma_count_bounds(before, c@.category);
            lemma_cat_points_bound(after, c@.category);
            lemma_cat_points_bound(before, c@.category);
        }
        total_points = total_points + c.value;
        if c.solved_by_me {
            solved = solved + 1;
            solved_points = solved_points + c.value;
        }
        let (p, found) = locate_category(&names, c.category.as_str());
        proof {
            lemma_index_step(prev_names, before, after, p as int, found);
        }
        let bump: u32 = if c.solved_by_me {
            1
        } else {
            0
        };
        if found {
            let row = rows.remove(p);
            rows.insert(
                p,
                CategoryStatus {
                    name: row.name,
                    solved: row.solved + bump,
                    total: row.total + 1,
                    points: row.points + c.value,
                },
            );
            assert(status_names(rows@) =~= prev_names);
        } else {
            rows.insert(
                p,
                CategoryStatus { name: c.category.clone(), solved: bump, total: 1, points: c.value },
            );
            names.insert(p, c.category.clone());
            assert(status_names(rows@) =~= prev_names.insert(p as int, c@.category));
        }
        proof {
            assert forall|k: int|
                #![trigger rows@[k]]
                0 <= k < rows@.len() implies {
                    &&& rows@[k].solved == count_cat_solved(after, rows@[k].name@)
                    &&& rows@[k].total == count_cat(after, rows@[k].name@)
                    &&& rows@[k].points == sum_cat_points(after, rows@[k].name@)
                } by {
                if found {
                    if k != p {
                        assert(rows@[k] == prev_rows[k]);
                        assert(prev_names[k] != c@.category);
                    }
                } else if k < p {
                    assert(rows@[k] == prev_rows[k]);
                    assert(prev_names[k] != c@.category);
                } else if k > p {
                    assert(rows@[k] == prev_rows[k - 1]);
                    assert(prev_names[k - 1] != c@.category);
                } else {
                    assert(count_cat_solved(before, c@.category) == 0);
                    assert(sum_cat_points(before, c@.category) == 0) by {
                        lemma_zero_count_zero_points(before, c@.category);
                    }
                }
            }
        }
        i = i + 1;
    }
    assert(items.take(n as int) =~= items);
    WorkspaceStatus { total: n, solved, total_points, solved_points, categories: rows }
}

proof fn lemma_zero_count_zero_points(items: Seq<TallyItem>, cat: Seq<char>)
    requires
        count_cat(items, cat) == 0,
    ensures
        sum_cat_points(items, cat) == 0,
        count_cat_solved(items, cat) == 0,
    decreases items.len(),
{
    if items.len() > 0 {
        lemma_zero_count_zero_points(items.drop_last(), cat);
    }
}

// ---------------------------------------------------------------------------
// Hints
// ---------------------------------------------------------------------------

/// Hint `j` of the record at position `i` has id `id` and costs points.
pub open spec fn paid_match(vals: Seq<ChallengeStateView>, id: Seq<char>, i: int, j: int) -> bool {
    &&& 0 <= i < vals.len()
    &&& vals[i].hints is Some
    &&& 0 <= j < vals[i].hints->0.len()
    &&& vals[i].hints->0[j].id == id
    &&& vals[i].hints->0[j].cost > 0
}

/// The cost of the first cached hint with id `hint_id` that costs points, if
/// the state caches one: unlocking it will reduce the team's score. The
/// records are looked at in the order of the state's records, and each
/// record's hints in their order.
pub fn paid_hint_cost(state: &WorkspaceState, hint_id: &str) -> (r: Option<u32>)
    ensures
        match r {
            Some(cost) => exists|i: int, j: int|
                #[trigger] paid_match(state.challenges.values(), hint_id@, i, j)
                    && state.challenges.values()[i].hints->0[j].cost == cost && forall|a: int, b: int|
                    #[trigger] paid_match(state.challenges.values(), hint_id@, a, b) ==> i < a || (a
                        == i && j <= b),
            None => forall|a: int, b: int| !#[trigger] paid_match(state.challenges.values(), hint_id@, a, b),
        },
{
    let ghost vals = state.challenges.values();
    let n = state.challenges.len();
    let mut i: usize = 0;
    while i < n
        invariant
            n == vals.len(),
            vals == state.challenges.values(),
            i <= n,
            forall|a: int, b: int| #[trigger] paid_match(vals, hint_id@, a, b) ==> i <= a,
        decreases n - i,
    {
        let cs = state.challenges.value_at(i);
        if let Some(hints) = &cs.hints {
            let mut j: usize = 0;
            while j < hints.len()
                invariant
                    i < vals.len(),
                    vals == state.challenges.values(),
                    cs@ == vals[i as int],
                    cs.hints == Some(*hints),
                    j <= hints@.len(),
                    forall|a: int, b: int| #[trigger] paid_match(vals, hint_id@, a, b) ==> i < a || (a
                        == i && j <= b),
                decreases hints@.len() - j,
            {
                let h = &hints[j];
                assert(vals[i as int].hints->0[j as int] == h@);
                if h.cost > 0 && str_eq(h.id.as_str(), hint_id) {
                    assert(paid_match(vals, hint_id@, i as int, j as int));
                    return Some(h.cost);
                }
                assert forall|a: int, b: int| #[trigger] paid_match(vals, hint_id@, a, b) implies i < a || (a
                    == i && j + 1 <= b) by {
                    if a == i && b == j {
                        assert(vals[i as int].hints->0[j as int] == h@);
                    }
                }
                j = j + 1;
            }
        }
        proof {
            assert forall|a: int, b: int| #[trigger] paid_match(vals, hint_id@, a, b) implies i + 1 <= a by {
                if a == i {
                    if cs.hints is Some {
                        assert(vals[a].hints->0.len() == cs.hints->0@.len());
                    }
                }
            }
        }
        i = i + 1;
    }
    None
}

/// The warning added to the answer when a hint that costs points is unlocked.
pub open spec fn hint_cost_warning_text(cost: nat) -> Seq<char> {
    "This hint cost "@ + decimal(cost) + " points \u{2014} your team score has been reduced"@
}

pub fn hint_cost_warning(cost: u32) -> (r: String)
    ensures
        r@ == hint_cost_warning_text(cost as nat),
{
    let mut r = String::from_str("This hint cost ");
    r.append(decimal_string(cost as u64).as_str());
    r.append(" points \u{2014} your team score has been reduced");
    r
}

// ---------------------------------------------------------------------------
// Downloading files
// ---------------------------------------------------------------------------

/// The answer of the download tool for a challenge without files; `None`
/// when it has files to download.
pub fn no_files_answer(c: &Challenge) -> (r: Option<String>)
    ensures
        c@.files.len() == 0 ==> (r matches Some(t) && t@ == "No files attached to this challenge."@),
        c@.files.len() > 0 ==> r is None,
{
    if c.files.len() == 0 {
        Some(String::from_str("No files attached to this challenge."))
    } else {
        None
    }
}

// ---------------------------------------------------------------------------
// Writeups
// ---------------------------------------------------------------------------

/// Checks the challenge named for a writeup: trimmed, it must not be empty.
pub fn validate_writeup_challenge(challenge: &str) -> (r: Result<String, ToolError>)
    ensures
        match r {
            Ok(name) => name@ == trimmed(challenge@) && name@.len() > 0,
            Err(e) => e == ToolError::EmptyChallengeName && trimmed(challenge@).len() == 0,
        },
{
    let name = trim(challenge);
    if name.unicode_len() == 0 {
        return Err(ToolError::EmptyChallengeName);
    }
    Ok(String::from_str(name))
}

/// The record filed under `key`, for a writeup of `challenge_name`; refused,
/// naming the challenge, when there is none.
pub fn writeup_record_keyed<'a>(state: &'a WorkspaceState, challenge_name: &str, key: &str) -> (r: Result<
    &'a ChallengeState,
    ToolError,
>)
    ensures
        match r {
            Ok(cs) => state.challenges@.contains_key(key@) && cs@ == state.challenges@[key@],
            Err(e) => !state.challenges@.contains_key(key@) && match e {
                ToolError::ChallengeNotInState(name) => name@ == challenge_name@,
                _ => false,
            },
        },
{
    match state.challenges.get(key) {
        Some(cs) => Ok(cs),
        None => Err(ToolError::ChallengeNotInState(String::from_str(challenge_name))),
    }
}

/// The record a writeup is written from: the one filed under the challenge's
/// name, which exists only once the flag was submitted.
pub fn writeup_record<'a>(state: &'a WorkspaceState, challenge_name: &str) -> (r: Result<&'a ChallengeState, ToolError>)
    ensures
        match r {
            Ok(cs) => state.challenges@.contains_key(lowercase(challenge_name@)) && cs@ == state.challenges@[lowercase(challenge_name@)],
            Err(e) => !state.challenges@.contains_key(lowercase(challenge_name@)) && match e {
                ToolError::ChallengeNotInState(name) => name@ == challenge_name@,
                _ => false,
            },
        },
{
    let key = to_lowercase(challenge_name);
    writeup_record_keyed(state, challenge_name, key.as_str())
}

/// A challenge standing for a solved record, to locate its directory: identity
/// and category from the record, its points as value, solved, nothing else.
pub fn pseudo_challenge(cs: &ChallengeState) -> (c: Challenge)
    ensures
        c@.id == cs@.id,
        c@.name == cs@.name,
        c@.category == cs@.category,
        c@.description.len() == 0,
        c@.value == (match cs.points {
            Some(p) => p,
            None => 0,
        }),
        c@.solves == 0,
        c@.solved_by_me,
        c@.files.len() == 0,
        c@.tags.len() == 0,
        c@.hints.len() == 0,
{
    Challenge {
        id: cs.id.clone(),
        name: cs.name.clone(),
        category: cs.category.clone(),
        description: String::new(),
        value: match cs.points {
            Some(p) => p,
            None => 0,
        },
        solves: 0,
        solved_by_me: true,
        files: Vec::new(),
        tags: Vec::new(),
        hints: Vec::new(),
    }
}

/// The answer once a writeup is saved.
pub fn writeup_saved_message(challenge_name: &str, challenge_dir: &str) -> (r: String)
    ensures
        r@ == "Writeup saved for '"@ + challenge_name@ + "' at "@ + challenge_dir@ + "/writeup.md"@,
{
    let mut r = String::from_str("Writeup saved for '");
    r.append(challenge_name);
    r.append("' at ");
    r.append(challenge_dir);
    r.append("/writeup.md");
    r
}

// ---------------------------------------------------------------------------
// The challenge queue
// ---------------------------------------------------------------------------

/// The queue actions that name a challenge.
#[derive(Debug, Clone, Copy, PartialEq, Eq, Structural)]
pub enum ChallengeAction {
    Start,
    Complete,
    Fail,
}

/// A queue update, checked.
#[derive(Debug)]
pub enum QueueRequest {
    SetQueue { queue_json: String },
    Start { name: String },
    Complete { name: String },
    Fail { name: String, category: String, notes: String },
    Clear,
}

/// A queue update that is refused.
#[derive(Debug, Clone, PartialEq, Eq)]
pub enum QueueError {
    QueueJsonRequired,
    ChallengeRequired(ChallengeAction),
    UnknownAction(String),
}

pub open spec fn action_name(a: ChallengeAction) -> Seq<char> {
    match a {
        ChallengeAction::Start => "start"@,
        ChallengeAction::Complete => "complete"@,
        ChallengeAction::Fail => "fail"@,
    }
}

pub open spec fn queue_error_text(e: QueueError) -> Seq<char> {
    match e {
        QueueError::QueueJsonRequired => "queue_json required for set_queue"@,
        QueueError::ChallengeRequired(a) => "challenge required for "@ + action_name(a),
        QueueError::UnknownAction(other) => "Unknown action: "@ + other@
            + ". Use set_queue, start, complete, fail, or clear."@,
    }
}

impl QueueError {
    pub fn message(&self) -> (r: String)
        ensures
            r@ == queue_error_text(*self),
    {
        match self {
            QueueError::QueueJsonRequired => String::from_str("queue_json required for set_queue"),
            QueueError::ChallengeRequired(a) => {
                let mut r = String::from_str("challenge required for ");
                match a {
                    ChallengeAction::Start => r.append("start"),
                    ChallengeAction::Complete => r.append("complete"),
                    ChallengeAction::Fail => r.append("fail"),
                }
                r
            },
            QueueError::UnknownAction(other) => {
                let mut r = String::from_str("Unknown action: ");
                r.append(other.as_str());
                r.append(". Use set_queue, start, complete, fail, or clear.");
                r
            },
        }
    }
}

/// What `parse_queue_update` makes of a named-challenge action: the request,
/// or the refusal when no challenge is given.
pub open spec fn named_request_ok(
    r: Result<QueueRequest, QueueError>,
    params: QueueUpdateParams,
    action: ChallengeAction,
) -> bool {
    match params.challenge {
        None => r == Err::<QueueRequest, QueueError>(QueueError::ChallengeRequired(action)),
        Some(name) => match r {
            Ok(QueueRequest::Start { name: n }) => action == ChallengeAction::Start && n == name,
            Ok(QueueRequest::Complete { name: n }) => action == ChallengeAction::Complete && n == name,
            Ok(QueueRequest::Fail { name: n, category, notes }) => action == ChallengeAction::Fail && n
                == name && category@ == (match params.category {
                Some(c) => c@,
                None => Seq::<char>::empty(),
            }) && notes@ == (match params.notes {
                Some(t) => t@,
                None => "failed"@,
            }),
            _ => false,
        },
    }
}

/// Checks a queue update: the action must be one of set_queue, start,
/// complete, fail or clear; set_queue needs the queue as JSON, and start,
/// complete and fail need the challenge. A failure is filed under an empty
/// category and with the notes "failed" when none are given.
pub fn parse_queue_update(params: QueueUpdateParams) -> (r: Result<QueueRequest, QueueError>)
    ensures
        params.action@ == "set_queue"@ ==> match params.queue_json {
            Some(j) => match r {
                Ok(QueueRequest::SetQueue { queue_json }) => queue_json == j,
                _ => false,
            },
            None => r == Err::<QueueRequest, QueueError>(QueueError::QueueJsonRequired),
        },
        params.action@ == "start"@ ==> named_request_ok(r, params, ChallengeAction::Start),
        params.action@ == "complete"@ ==> named_request_ok(r, params, ChallengeAction::Complete),
        params.action@ == "fail"@ ==> named_request_ok(r, params, ChallengeAction::Fail),
        params.action@ == "clear"@ ==> r matches Ok(QueueRequest::Clear),
        params.action@ != "set_queue"@ && params.action@ != "start"@ && params.action@ != "complete"@
            && params.action@ != "fail"@ && params.action@ != "clear"@ ==> match r {
            Err(QueueError::UnknownAction(a)) => a@ == params.action@,
            _ => false,
        },
{
    proof {
        reveal_strlit("set_queue");
        reveal_strlit("start");
        reveal_strlit("complete");
        reveal_strlit("fail");
        reveal_strlit("clear");
        assert("set_queue"@.len() != "start"@.len());
        assert("set_queue"@.len() != "complete"@.len());
        assert("set_queue"@.len() != "fail"@.len());
        assert("start"@.len() != "complete"@.len());
        assert("start"@.len() != "fail"@.len());
        assert("complete"@.len() != "fail"@.len());
        assert("clear"@[0] != "start"@[0]);
    }
    let QueueUpdateParams { action, queue_json, challenge, category, notes } = params;
    if str_eq(action.as_str(), "set_queue") {
        match queue_json {
            Some(j) => Ok(QueueRequest::SetQueue { queue_json: j }),
            None => Err(QueueError::QueueJsonRequired),
        }
    } else if str_eq(action.as_str(), "start") {
        match challenge {
            Some(name) => Ok(QueueRequest::Start { name }),
            None => Err(QueueError::ChallengeRequired(ChallengeAction::Start)),
        }
    } else if str_eq(action.as_str(), "complete") {
        match challenge {
            Some(name) => Ok(QueueRequest::Complete { name }),
            None => Err(QueueError::ChallengeRequired(ChallengeAction::Complete)),
        }
    } else if str_eq(action.as_str(), "fail") {
        match challenge {
            Some(name) => {
                let category = match category {
                    Some(c) => c,
                    None => String::new(),
                };
                let notes = match notes {
                    Some(t) => t,
                    None => String::from_str("failed"),
                };
                Ok(QueueRequest::Fail { name, category, notes })
            },
            None => Err(QueueError::ChallengeRequired(ChallengeAction::Fail)),
        }
    } else if str_eq(action.as_str(), "clear") {
        Ok(QueueRequest::Clear)
    } else {
        Err(QueueError::UnknownAction(action))
    }
}

/// Applies a checked queue update at `now`; `queue` is the queue that a
/// set_queue request's JSON holds (unused by the other requests). Every update
/// stamps the state with `now`.
pub fn apply_queue_request_at(
    orch: &mut OrchestrationState,
    request: QueueRequest,
    queue: Vec<QueuedChallenge>,
    now: Timestamp,
)
    ensures
        final(orch)@.updated_at == Some(now),
        match request {
            QueueRequest::SetQueue { .. } => final(orch)@.queue == queue_names(queue@)
                && final(orch)@.in_progress == old(orch)@.in_progress && final(orch)@.failed == old(
                orch,
            )@.failed,
            QueueRequest::Start { name } => final(orch)@.queue == without(old(orch)@.queue, name@)
                && final(orch)@.in_progress == (if old(orch)@.in_progress.contains(name@) {
                old(orch)@.in_progress
            } else {
                old(orch)@.in_progress.push(name@)
            }) && final(orch)@.failed == old(orch)@.failed,
            QueueRequest::Complete { name } => final(orch)@.queue == old(orch)@.queue
                && final(orch)@.in_progress == without(old(orch)@.in_progress, name@)
                && final(orch)@.failed == old(orch)@.failed,
            QueueRequest::Fail { name, category, notes } => final(orch)@.queue == old(orch)@.queue
                && final(orch)@.in_progress == without(old(orch)@.in_progress, name@)
                && final(orch)@.failed == old(orch)@.failed.push(
                FailedView { name: name@, category: category@, attempted_at: now, notes: notes@ },
            ),
            QueueRequest::Clear => final(orch)@.queue.len() == 0 && final(orch)@.in_progress.len() == 0
                && final(orch)@.failed.len() == 0,
        },
{
    match request {
        QueueRequest::SetQueue { .. } => orch.set_queue(queue),
        QueueRequest::Start { name } => orch.start(name),
        QueueRequest::Complete { name } => orch.complete(name.as_str()),
        QueueRequest::Fail { name, category, notes } => orch.fail(name, category, notes, now),
        QueueRequest::Clear => {
            *orch = OrchestrationState::default();
        },
    }
    orch.updated_at = Some(now);
}

/// Applies a checked queue update, stamped with the current time.
pub fn apply_queue_request(orch: &mut OrchestrationState, request: QueueRequest, queue: Vec<QueuedChallenge>)
    ensures
        final(orch)@.updated_at matches Some(t) && is_clock_reading(t),
        match request {
            QueueRequest::SetQueue { .. } => final(orch)@.queue == queue_names(queue@)
                && final(orch)@.in_progress == old(orch)@.in_progress && final(orch)@.failed == old(
                orch,
            )@.failed,
            QueueRequest::Start { name } => final(orch)@.queue == without(old(orch)@.queue, name@)
                && final(orch)@.in_progress == (if old(orch)@.in_progress.contains(name@) {
                old(orch)@.in_progress
            } else {
                old(orch)@.in_progress.push(name@)
            }) && final(orch)@.failed == old(orch)@.failed,
            QueueRequest::Complete { name } => final(orch)@.queue == old(orch)@.queue
                && final(orch)@.in_progress == without(old(orch)@.in_progress, name@)
                && final(orch)@.failed == old(orch)@.failed,
            QueueRequest::Fail { name, category, notes } => final(orch)@.queue == old(orch)@.queue
                && final(orch)@.in_progress == without(old(orch)@.in_progress, name@)
                && final(orch)@.failed.len() == old(orch)@.failed.len() + 1
                && final(orch)@.failed.drop_last() == old(orch)@.failed
                && final(orch)@.failed.last().name == name@
                && final(orch)@.failed.last().category == category@
                && final(orch)@.failed.last().notes == notes@
                && Some(final(orch)@.failed.last().attempted_at) == final(orch)@.updated_at,
            QueueRequest::Clear => final(orch)@.queue.len() == 0 && final(orch)@.in_progress.len() == 0
                && final(orch)@.failed.len() == 0,
        },
{
    let now = current_time();
    apply_queue_request_at(orch, request, queue, now);
}

/// Starting a challenge takes it off the queue and leaves it in progress, and
/// completing or failing it takes it out of progress.
pub proof fn lemma_queue_moves(queue: Seq<Seq<char>>, in_progress: Seq<Seq<char>>, name: Seq<char>)
    ensures
        !without(queue, name).contains(name),
        (if in_progress.contains(name) { in_progress } else { in_progress.push(name) }).contains(name),
        !without(in_progress, name).contains(name),
{
    let pred = |y: Seq<char>| y != name;
    if without(queue, name).contains(name) {
        let i = choose|i: int| 0 <= i < without(queue, name).len() && without(queue, name)[i] == name;
        queue.lemma_filter_pred(pred, i);
    }
    if without(in_progress, name).contains(name) {
        let i = choose|i: int| 0 <= i < without(in_progress, name).len() && without(in_progress, name)[i] == name;
        in_progress.lemma_filter_pred(pred, i);
    }
    if !in_progress.contains(name) {
        assert(in_progress.push(name)[in_progress.len() as int] == name);
    }
}

} // verus!
