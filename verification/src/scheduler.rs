//! Planning of one broadcast tick.
//!
//! On a tick the scheduler reads the subscriber snapshot, fetches the
//! top items once per category that has at least one registered
//! destination, selects the first summary as the quote of the day, and
//! fans it out to every destination of that category.  Every unit of
//! work is isolated: a failed fetch only fails its category, an
//! unparsable destination only fails itself.  The host performs the
//! fetches and deliveries; this module decides them.

use vstd::prelude::*;
use vstd::string::*;

use crate::json::is_digit;
use crate::model::{ApiError, BookSummary, BookSummaryV};

verus! {

// ---------------------------------------------------------------------
// The snapshot
// ---------------------------------------------------------------------

/// One category of the subscriber snapshot with its registered
/// destination identifiers.
pub struct SnapshotEntry {
    pub category: String,
    pub destinations: Vec<String>,
}

pub struct SnapshotEntryV {
    pub category: Seq<char>,
    pub destinations: Seq<Seq<char>>,
}

impl View for SnapshotEntry {
    type V = SnapshotEntryV;

    open spec fn view(&self) -> SnapshotEntryV {
        SnapshotEntryV {
            category: self.category@,
            destinations: self.destinations.deep_view(),
        }
    }
}

impl DeepView for SnapshotEntry {
    type V = SnapshotEntryV;

    open spec fn deep_view(&self) -> SnapshotEntryV {
        self.view()
    }
}

/// A point-in-time read of the subscriber-to-destination mapping,
/// produced fresh for every tick by the persistence collaborator.
pub struct Snapshot {
    pub entries: Vec<SnapshotEntry>,
}

impl View for Snapshot {
    type V = Seq<SnapshotEntryV>;

    open spec fn view(&self) -> Seq<SnapshotEntryV> {
        self.entries.deep_view()
    }
}

/// Each category appears at most once among the entries.
pub open spec fn sp_distinct_categories(entries: Seq<SnapshotEntryV>) -> bool {
    forall|a: int, b: int|
        0 <= a < b < entries.len() ==> (#[trigger] entries[a]).category != (
        #[trigger] entries[b]).category
}

impl Snapshot {
    /// The snapshot maps each category to one destination set.
    pub open spec fn wf(&self) -> bool {
        sp_distinct_categories(self@)
    }
}

// ---------------------------------------------------------------------
// Destination identifiers
// ---------------------------------------------------------------------

/// Value of a sequence of decimal digits.
pub open spec fn sp_digits_val(s: Seq<char>) -> int
    decreases s.len(),
{
    if s.len() == 0 {
        0
    } else {
        sp_digits_val(s.drop_last()) * 10 + (s.last() as u32 - 48)
    }
}

pub open spec fn all_digits(s: Seq<char>) -> bool {
    forall|k: int| 0 <= k < s.len() ==> is_digit(#[trigger] s[k])
}

/// The transport address denoted by a destination identifier: its
/// decimal value when the identifier is one or more digits and fits
/// the addressing type, nothing otherwise.
pub open spec fn sp_channel_id(s: Seq<char>) -> Option<u64> {
    if s.len() > 0 && all_digits(s) && sp_digits_val(s) <= u64::MAX {
        Some(sp_digits_val(s) as u64)
    } else {
        None
    }
}

proof fn lemma_digits_val_nonneg(s: Seq<char>)
    requires
        all_digits(s),
    ensures
        sp_digits_val(s) >= 0,
    decreases s.len(),
{
    if s.len() > 0 {
        lemma_digits_val_nonneg(s.drop_last());
    }
}

/// Appending digits never decreases the value.
proof fn lemma_digits_val_prefix(s: Seq<char>, m: int)
    requires
        all_digits(s),
        0 <= m <= s.len(),
    ensures
        sp_digits_val(s) >= sp_digits_val(s.take(m)),
    decreases s.len(),
{
    if m < s.len() {
        lemma_digits_val_prefix(s.drop_last(), m);
        assert(s.drop_last().take(m) =~= s.take(m));
        lemma_digits_val_nonneg(s.drop_last());
    } else {
        assert(s.take(m) =~= s);
    }
}

/// Parse a destination identifier into the transport's addressing
/// form.  Failure is a per-destination fault, never fatal to the tick.
pub fn parse_channel_id(s: &str) -> (r: Option<u64>)
    ensures
        r == sp_channel_id(s@),
{
    let n = s.unicode_len();
    if n == 0 {
        return None;
    }
    let mut acc: u64 = 0;
    let mut i: usize = 0;
    while i < n
        invariant
            0 < n == s@.len(),
            0 <= i <= n,
            all_digits(s@.take(i as int)),
            acc == sp_digits_val(s@.take(i as int)),
        decreases n - i,
    {
        let c = s.get_char(i);
        let u = c as u32;
        if !(48 <= u && u <= 57) {
            assert(!is_digit(s@[i as int]));
            assert(!all_digits(s@));
            return None;
        }
        let d: u64 = (u - 48) as u64;
        proof {
            assert(s@.take(i + 1).drop_last() =~= s@.take(i as int));
            assert(s@.take(i + 1).last() == s@[i as int]);
        }
        if acc > (u64::MAX - d) / 10 {
            proof {
                lemma_digits_val_nonneg(s@.take(i as int));
                assert(acc * 10 + d > u64::MAX) by (nonlinear_arith)
                    requires
                        acc > (u64::MAX - d) / 10,
                        d <= 9,
                        acc >= 0,
                ;
                if all_digits(s@) {
                    lemma_digits_val_prefix(s@, i + 1);
                }
            }
            return None;
        }
        proof {
            assert(acc * 10 + d <= u64::MAX) by (nonlinear_arith)
                requires
                    acc <= (u64::MAX - d) / 10,
                    d <= 9,
                    acc >= 0,
            ;
        }
        acc = acc * 10 + d;
        i += 1;
    }
    proof {
        assert(s@.take(n as int) =~= s@);
    }
    Some(acc)
}

// ---------------------------------------------------------------------
// The broadcast message
// ---------------------------------------------------------------------

/// The user-facing message for a summary: the quote body, a line
/// break, and the attributed author line.
pub open spec fn sp_quote_message(b: BookSummaryV) -> Seq<char> {
    b.description + "\n-_"@ + b.author + "_"@
}

/// Format a summary as the broadcast text.
pub fn format_quote(b: &BookSummary) -> (r: String)
    ensures
        r@ == sp_quote_message(b@),
{
    let mut m = b.description.clone();
    m.append("\n-_");
    m.append(b.author.as_str());
    m.append("_");
    m
}

// ---------------------------------------------------------------------
// Per-category fan-out
// ---------------------------------------------------------------------

/// What the tick decides for one destination of a category.
pub enum DestinationPlan {
    /// Deliver the message to this channel.
    Deliver { channel: u64, message: String },
    /// The identifier does not parse; the destination is skipped and
    /// its siblings are unaffected.
    InvalidDestination,
}

pub enum DestinationPlanV {
    Deliver { channel: u64, message: Seq<char> },
    InvalidDestination,
}

impl View for DestinationPlan {
    type V = DestinationPlanV;

    open spec fn view(&self) -> DestinationPlanV {
        match self {
            DestinationPlan::Deliver { channel, message } => DestinationPlanV::Deliver {
                channel: *channel,
                message: message@,
            },
            DestinationPlan::InvalidDestination => DestinationPlanV::InvalidDestination,
        }
    }
}

impl DeepView for DestinationPlan {
    type V = DestinationPlanV;

    open spec fn deep_view(&self) -> DestinationPlanV {
        self.view()
    }
}

/// The decision for one destination, given the quote of the day.
pub open spec fn sp_destination_plan(dest: Seq<char>, quote: BookSummaryV) -> DestinationPlanV {
    match sp_channel_id(dest) {
        Some(id) => DestinationPlanV::Deliver { channel: id, message: sp_quote_message(quote) },
        None => DestinationPlanV::InvalidDestination,
    }
}

/// The decisions for every destination of a category: each depends
/// only on that destination's identifier and the one shared quote.
pub open spec fn sp_category_plans(dests: Seq<Seq<char>>, quote: BookSummaryV) -> Seq<
    DestinationPlanV,
> {
    Seq::new(dests.len(), |k: int| sp_destination_plan(dests[k], quote))
}

/// Fan one fetched result out to every destination of its category.
/// The first summary is the quote of the day; the single formatted
/// message is shared by all destinations.
pub fn plan_category(summaries: &Vec<BookSummary>, destinations: &Vec<String>) -> (r: Vec<
    DestinationPlan,
>)
    requires
        summaries.len() > 0,
    ensures
        r.deep_view() == sp_category_plans(destinations.deep_view(), summaries.deep_view()[0]),
{
    let message = format_quote(&summaries[0]);
    let mut out: Vec<DestinationPlan> = Vec::new();
    let n = destinations.len();
    let mut i: usize = 0;
    while i < n
        invariant
            0 <= i <= n,
            n == destinations.len(),
            summaries.len() > 0,
            message@ == sp_quote_message(summaries.deep_view()[0]),
            out.deep_view() =~= sp_category_plans(
                destinations.deep_view().take(i as int),
                summaries.deep_view()[0],
            ),
        decreases n - i,
    {
        let ghost pre = out.deep_view();
        match parse_channel_id(destinations[i].as_str()) {
            Some(id) => {
                out.push(DestinationPlan::Deliver { channel: id, message: message.clone() });
            },
            None => {
                out.push(DestinationPlan::InvalidDestination);
            },
        }
        proof {
            let q = summaries.deep_view()[0];
            let dv = destinations.deep_view();
            assert(out.deep_view() =~= pre.push(sp_destination_plan(dv[i as int], q)));
            assert(out.deep_view() =~= sp_category_plans(dv.take(i + 1), q));
        }
        i += 1;
    }
    proof {
        assert(destinations.deep_view().take(n as int) =~= destinations.deep_view());
    }
    out
}

// ---------------------------------------------------------------------
// The whole tick
// ---------------------------------------------------------------------

/// The categories a tick fetches: those with at least one registered
/// destination, in snapshot order, one fetch each.
pub open spec fn sp_fetch_categories(entries: Seq<SnapshotEntryV>) -> Seq<Seq<char>>
    decreases entries.len(),
{
    if entries.len() == 0 {
        Seq::empty()
    } else {
        sp_fetch_categories(entries.drop_last()) + (if entries.last().destinations.len() > 0 {
            seq![entries.last().category]
        } else {
            Seq::<Seq<char>>::empty()
        })
    }
}

/// The plan position of entry `idx`: how many fetched categories
/// precede it.
pub open spec fn sp_plan_pos(entries: Seq<SnapshotEntryV>, idx: int) -> int {
    sp_fetch_categories(entries.take(idx)).len() as int
}

/// Compute the fetch list of one tick.  The host performs exactly one
/// items-in-category request per element; a category with no
/// registered destinations is never fetched.
pub fn tick_fetch_categories(snapshot: &Snapshot) -> (r: Vec<String>)
    ensures
        r.deep_view() == sp_fetch_categories(snapshot@),
{
    let mut out: Vec<String> = Vec::new();
    let n = snapshot.entries.len();
    let mut i: usize = 0;
    while i < n
        invariant
            0 <= i <= n,
            n == snapshot.entries.len(),
            out.deep_view() == sp_fetch_categories(snapshot@.take(i as int)),
        decreases n - i,
    {
        proof {
            assert(snapshot@.take(i + 1).drop_last() =~= snapshot@.take(i as int));
            assert(snapshot@.take(i + 1).last() == snapshot@[i as int]);
        }
        let ghost pre = out.deep_view();
        let entry = &snapshot.entries[i];
        if entry.destinations.len() > 0 {
            out.push(entry.category.clone());
            proof {
                assert(out.deep_view() =~= pre.push(snapshot@[i as int].category));
                assert(sp_fetch_categories(snapshot@.take(i + 1)) =~= pre.push(
                    snapshot@[i as int].category,
                ));
            }
        } else {
            proof {
                assert(sp_fetch_categories(snapshot@.take(i + 1)) =~= pre);
            }
        }
        i += 1;
    }
    proof {
        assert(snapshot@.take(n as int) =~= snapshot@);
    }
    out
}

/// What the tick records for one category.
pub enum CategoryOutcome {
    /// No registered destinations: no fetch, no dispatch.
    Skipped,
    /// The fetch failed; the failure is reported and the siblings go
    /// on.
    FetchFailed(ApiError),
    /// The decisions for every destination of the category.
    Dispatched(Vec<DestinationPlan>),
}

pub enum CategoryOutcomeV {
    Skipped,
    FetchFailed(ApiError),
    Dispatched(Seq<DestinationPlanV>),
}

impl View for CategoryOutcome {
    type V = CategoryOutcomeV;

    open spec fn view(&self) -> CategoryOutcomeV {
        match self {
            CategoryOutcome::Skipped => CategoryOutcomeV::Skipped,
            CategoryOutcome::FetchFailed(e) => CategoryOutcomeV::FetchFailed(*e),
            CategoryOutcome::Dispatched(plans) => CategoryOutcomeV::Dispatched(plans.deep_view()),
        }
    }
}

impl DeepView for CategoryOutcome {
    type V = CategoryOutcomeV;

    open spec fn deep_view(&self) -> CategoryOutcomeV {
        self.view()
    }
}

/// View of one fetch result as handed back by the host.
pub open spec fn fetch_view(r: Result<Vec<BookSummary>, ApiError>) -> Result<
    Seq<BookSummaryV>,
    ApiError,
> {
    match r {
        Ok(v) => Ok(v.deep_view()),
        Err(e) => Err(e),
    }
}

pub open spec fn fetches_view(rs: Seq<Result<Vec<BookSummary>, ApiError>>) -> Seq<
    Result<Seq<BookSummaryV>, ApiError>,
> {
    Seq::new(rs.len(), |k: int| fetch_view(rs[k]))
}

/// The outcome of one category, given its own fetch result and nothing
/// else.
pub open spec fn sp_category_outcome(
    entry: SnapshotEntryV,
    fetch: Result<Seq<BookSummaryV>, ApiError>,
) -> CategoryOutcomeV {
    if entry.destinations.len() == 0 {
        CategoryOutcomeV::Skipped
    } else {
        match fetch {
            Ok(summaries) => CategoryOutcomeV::Dispatched(
                sp_category_plans(entry.destinations, summaries[0]),
            ),
            Err(e) => CategoryOutcomeV::FetchFailed(e),
        }
    }
}

/// The outcomes of a whole tick: entry `k` sees only the fetch result
/// at its own plan position.
pub open spec fn sp_tick_outcomes(
    entries: Seq<SnapshotEntryV>,
    results: Seq<Result<Seq<BookSummaryV>, ApiError>>,
) -> Seq<CategoryOutcomeV> {
    Seq::new(
        entries.len(),
        |k: int|
            sp_category_outcome(
                entries[k],
                if entries[k].destinations.len() > 0 {
                    results[sp_plan_pos(entries, k)]
                } else {
                    Err(ApiError::TransportError)
                },
            ),
    )
}

/// A fetched entry's plan position lies inside the fetch list.
proof fn lemma_plan_pos_bound(entries: Seq<SnapshotEntryV>, idx: int)
    requires
        0 <= idx < entries.len(),
        entries[idx].destinations.len() > 0,
    ensures
        0 <= sp_plan_pos(entries, idx) < sp_fetch_categories(entries).len(),
    decreases entries.len(),
{
    lemma_fetch_categories_len_nonneg(entries.take(idx));
    if idx == entries.len() - 1 {
        assert(entries.take(idx) =~= entries.drop_last());
    } else {
        lemma_plan_pos_bound(entries.drop_last(), idx);
        assert(entries.drop_last().take(idx) =~= entries.take(idx));
    }
}

proof fn lemma_fetch_categories_len_nonneg(entries: Seq<SnapshotEntryV>)
    ensures
        sp_fetch_categories(entries).len() >= 0,
{
}

/// Compute every outcome of one tick from the snapshot and the fetch
/// results, which the host hands back aligned with the fetch list.
pub fn tick_dispatch(snapshot: &Snapshot, results: &Vec<Result<Vec<BookSummary>, ApiError>>) -> (r:
    Vec<CategoryOutcome>)
    requires
        results@.len() == sp_fetch_categories(snapshot@).len(),
        forall|k: int|
            0 <= k < results@.len() ==> ((#[trigger] results@[k]) is Ok ==> results@[k]->Ok_0@.len() > 0),
    ensures
        r.deep_view() == sp_tick_outcomes(snapshot@, fetches_view(results@)),
{
    let mut out: Vec<CategoryOutcome> = Vec::new();
    let n = snapshot.entries.len();
    let total = results.len();
    let mut i: usize = 0;
    let mut p: usize = 0;
    while i < n
        invariant
            0 <= i <= n,
            n == snapshot.entries.len(),
            total == results@.len(),
            results@.len() == sp_fetch_categories(snapshot@).len(),
            forall|k: int|
                0 <= k < results@.len() ==> ((#[trigger] results@[k]) is Ok ==> results@[k]->Ok_0@.len() > 0),
            p == sp_plan_pos(snapshot@, i as int),
            out.deep_view() == sp_tick_outcomes(snapshot@, fetches_view(results@)).take(i as int),
        decreases n - i,
    {
        let ghost entries = snapshot@;
        let ghost rsv = fetches_view(results@);
        let ghost full = sp_tick_outcomes(entries, rsv);
        proof {
            assert(entries.take(i + 1).drop_last() =~= entries.take(i as int));
        }
        let ghost pre = out.deep_view();
        let entry = &snapshot.entries[i];
        if entry.destinations.len() == 0 {
            out.push(CategoryOutcome::Skipped);
            proof {
                assert(out.deep_view() =~= pre.push(CategoryOutcomeV::Skipped));
                assert(full[i as int] == CategoryOutcomeV::Skipped);
                assert(out.deep_view() =~= full.take(i + 1));
                assert(sp_fetch_categories(entries.take(i + 1)) =~= sp_fetch_categories(
                    entries.take(i as int),
                ));
            }
        } else {
            proof {
                lemma_plan_pos_bound(entries, i as int);
            }
            match &results[p] {
                Ok(summaries) => {
                    let plans = plan_category(summaries, &entry.destinations);
                    out.push(CategoryOutcome::Dispatched(plans));
                    proof {
                        assert(rsv[p as int] == fetch_view(results@[p as int]));
                        assert(out.deep_view() =~= pre.push(
                            CategoryOutcomeV::Dispatched(plans.deep_view()),
                        ));
                        assert(full[i as int] == CategoryOutcomeV::Dispatched(
                            sp_category_plans(
                                entries[i as int].destinations,
                                rsv[p as int]->Ok_0[0],
                            ),
                        ));
                        assert(out.deep_view() =~= full.take(i + 1));
                    }
                },
                Err(e) => {
                    out.push(CategoryOutcome::FetchFailed(*e));
                    proof {
                        assert(rsv[p as int] == fetch_view(results@[p as int]));
                        assert(out.deep_view() =~= pre.push(CategoryOutcomeV::FetchFailed(*e)));
                        assert(full[i as int] == CategoryOutcomeV::FetchFailed(*e));
                        assert(out.deep_view() =~= full.take(i + 1));
                    }
                },
            }
            proof {
                assert(sp_fetch_categories(entries.take(i + 1)) =~= sp_fetch_categories(
                    entries.take(i as int),
                ).push(entries[i as int].category));
            }
            p += 1;
        }
        i += 1;
    }
    proof {
        assert(snapshot@.take(n as int) =~= snapshot@);
        assert(sp_tick_outcomes(snapshot@, fetches_view(results@)).take(n as int)
            =~= sp_tick_outcomes(snapshot@, fetches_view(results@)));
    }
    out
}

// ---------------------------------------------------------------------
// Laws of the tick
// ---------------------------------------------------------------------

/// When every category of the snapshot has an empty destination set, a
/// tick fetches nothing and delivers nothing, whatever fetch results
/// would have come back.
pub proof fn lemma_idle_tick(
    entries: Seq<SnapshotEntryV>,
    results: Seq<Result<Seq<BookSummaryV>, ApiError>>,
)
    requires
        forall|k: int|
            0 <= k < entries.len() ==> (#[trigger] entries[k]).destinations.len() == 0,
    ensures
        sp_fetch_categories(entries).len() == 0,
        forall|k: int|
            0 <= k < entries.len() ==> sp_tick_outcomes(entries, results)[k]
                == CategoryOutcomeV::Skipped,
    decreases entries.len(),
{
    if entries.len() > 0 {
        lemma_idle_tick(entries.drop_last(), results);
    }
}

/// The quote of the day is the first summary of the fetched sequence:
/// every delivery of the category carries the message formatted from
/// the head, never from any other element.
pub proof fn lemma_head_selected(entry: SnapshotEntryV, summaries: Seq<BookSummaryV>)
    requires
        entry.destinations.len() > 0,
        summaries.len() > 0,
    ensures
        sp_category_outcome(entry, Ok(summaries)) == CategoryOutcomeV::Dispatched(
            sp_category_plans(entry.destinations, summaries[0]),
        ),
        forall|d: int|
            0 <= d < entry.destinations.len() && sp_channel_id(
                #[trigger] entry.destinations[d],
            ) is Some ==> sp_category_plans(entry.destinations, summaries[0])[d]
                == (DestinationPlanV::Deliver {
                channel: sp_channel_id(entry.destinations[d])->0,
                message: sp_quote_message(summaries[0]),
            }),
{
}

/// How many categories of the snapshot have a registered destination.
pub open spec fn sp_nonempty_count(entries: Seq<SnapshotEntryV>) -> int
    decreases entries.len(),
{
    if entries.len() == 0 {
        0
    } else {
        sp_nonempty_count(entries.drop_last()) + if entries.last().destinations.len() > 0 {
            1int
        } else {
            0int
        }
    }
}

/// One fetch per category and no more: a well-formed snapshot's fetch
/// list holds exactly the categories with a registered destination,
/// each exactly once, however large their destination sets are.  The
/// one fetched result is what every destination of the category
/// shares.
pub proof fn lemma_single_fetch_per_category(entries: Seq<SnapshotEntryV>)
    requires
        sp_distinct_categories(entries),
    ensures
        sp_fetch_categories(entries).len() == sp_nonempty_count(entries),
        sp_fetch_categories(entries).no_duplicates(),
        forall|k: int|
            0 <= k < sp_fetch_categories(entries).len() ==> exists|j: int|
                0 <= j < entries.len() && (#[trigger] sp_fetch_categories(entries)[k])
                    == entries[j].category && entries[j].destinations.len() > 0,
        forall|j: int|
            0 <= j < entries.len() && (#[trigger] entries[j]).destinations.len() > 0
                ==> sp_fetch_categories(entries).contains(entries[j].category),
    decreases entries.len(),
{
    if entries.len() > 0 {
        let prev = entries.drop_last();
        lemma_single_fetch_per_category(prev);
        let fc0 = sp_fetch_categories(prev);
        let fc = sp_fetch_categories(entries);
        let last = entries.last();
        assert(forall|j: int| 0 <= j < prev.len() ==> prev[j] == entries[j]);
        if last.destinations.len() > 0 {
            assert(fc =~= fc0.push(last.category));
            assert forall|k: int| 0 <= k < fc0.len() implies fc0[k] != last.category by {
                let j = choose|j: int|
                    0 <= j < prev.len() && fc0[k] == prev[j].category && prev[
                        j
                    ].destinations.len() > 0;
                assert(entries[j].category != last.category);
            }
            assert forall|a: int, b: int| 0 <= a < b < fc.len() implies fc[a] != fc[b] by {
                if b == fc.len() - 1 {
                    assert(fc[a] == fc0[a]);
                } else {
                    assert(fc0.no_duplicates());
                }
            }
            assert(fc.no_duplicates());
            assert forall|j: int|
                0 <= j < entries.len() && (#[trigger] entries[j]).destinations.len()
                    > 0 implies fc.contains(entries[j].category) by {
                if j == entries.len() - 1 {
                    assert(fc[fc.len() - 1] == entries[j].category);
                } else {
                    let k = choose|k: int| 0 <= k < fc0.len() && fc0[k] == prev[j].category;
                    assert(fc[k] == entries[j].category);
                }
            }
        } else {
            assert(fc =~= fc0);
            assert forall|j: int|
                0 <= j < entries.len() && (#[trigger] entries[j]).destinations.len()
                    > 0 implies fc.contains(entries[j].category) by {
                let k = choose|k: int| 0 <= k < fc0.len() && fc0[k] == prev[j].category;
                assert(fc[k] == entries[j].category);
            }
        }
        assert forall|k: int| 0 <= k < fc.len() implies exists|j: int|
            0 <= j < entries.len() && (#[trigger] fc[k]) == entries[j].category && entries[
                j
            ].destinations.len() > 0 by {
            if k < fc0.len() {
                let j = choose|j: int|
                    0 <= j < prev.len() && fc0[k] == prev[j].category && prev[
                        j
                    ].destinations.len() > 0;
                assert(fc[k] == entries[j].category && entries[j].destinations.len() > 0);
            } else {
                assert(fc[k] == entries[entries.len() - 1].category);
            }
        }
    }
}

/// A failure injected into one category's fetch leaves every sibling
/// category's outcome of the same tick unchanged.
pub proof fn lemma_category_isolation(
    entries: Seq<SnapshotEntryV>,
    results1: Seq<Result<Seq<BookSummaryV>, ApiError>>,
    results2: Seq<Result<Seq<BookSummaryV>, ApiError>>,
    pos: int,
)
    requires
        results1.len() == sp_fetch_categories(entries).len(),
        results2.len() == sp_fetch_categories(entries).len(),
        forall|q: int| 0 <= q < results1.len() && q != pos ==> results1[q] == results2[q],
    ensures
        forall|k: int|
            0 <= k < entries.len() && ((#[trigger] entries[k]).destinations.len() == 0
                || sp_plan_pos(entries, k) != pos) ==> sp_tick_outcomes(entries, results1)[k]
                == sp_tick_outcomes(entries, results2)[k],
{
    assert forall|k: int|
        0 <= k < entries.len() && ((#[trigger] entries[k]).destinations.len() == 0 || sp_plan_pos(
            entries,
            k,
        ) != pos) implies sp_tick_outcomes(entries, results1)[k] == sp_tick_outcomes(
        entries,
        results2,
    )[k] by {
        if entries[k].destinations.len() > 0 {
            lemma_plan_pos_bound(entries, k);
        }
    }
}

/// A destination whose identifier fails to parse leaves every sibling
/// destination of the same category unchanged, and the siblings still
/// receive the formatted text.
pub proof fn lemma_destination_isolation(
    dests1: Seq<Seq<char>>,
    dests2: Seq<Seq<char>>,
    quote: BookSummaryV,
    pos: int,
)
    requires
        dests1.len() == dests2.len(),
        forall|q: int| 0 <= q < dests1.len() && q != pos ==> dests1[q] == dests2[q],
    ensures
        forall|q: int|
            0 <= q < dests1.len() && q != pos ==> sp_category_plans(dests1, quote)[q]
                == sp_category_plans(dests2, quote)[q],
{
}

} // verus!

