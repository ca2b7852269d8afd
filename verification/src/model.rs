//! Data model of the catalog responses and the errors of the client.

use vstd::prelude::*;

verus! {

/// Failures surfaced by the catalog client.  A transport error covers a
/// failed request and a body that does not deserialize; an empty result
/// is a well-formed response with zero usable records; a malformed
/// record is a present item record that lacks a required field.
#[derive(Clone, Copy, Debug, PartialEq, Eq, Structural)]
pub enum ApiError {
    TransportError,
    EmptyResult,
    MalformedRecord,
}

impl ApiError {
    /// Human-readable reason, reported with the failure.
    pub fn describe(&self) -> (r: &'static str)
        ensures
            *self == ApiError::TransportError ==> r@ == "the catalog request failed or its response could not be deserialized"@,
            *self == ApiError::EmptyResult ==> r@ == "the response parsed but held no usable records"@,
            *self == ApiError::MalformedRecord ==> r@ == "an item record lacked a required field"@,
    {
        match self {
            ApiError::TransportError => "the catalog request failed or its response could not be deserialized",
            ApiError::EmptyResult => "the response parsed but held no usable records",
            ApiError::MalformedRecord => "an item record lacked a required field",
        }
    }
}

/// A (title, author, description) triple extracted from an item record.
/// All three fields are required; a record missing one never becomes a
/// `BookSummary`.
#[derive(Clone, Debug, PartialEq, Eq)]
pub struct BookSummary {
    pub title: String,
    pub author: String,
    pub description: String,
}

pub struct BookSummaryV {
    pub title: Seq<char>,
    pub author: Seq<char>,
    pub description: Seq<char>,
}

impl View for BookSummary {
    type V = BookSummaryV;

    open spec fn view(&self) -> BookSummaryV {
        BookSummaryV { title: self.title@, author: self.author@, description: self.description@ }
    }
}

impl DeepView for BookSummary {
    type V = BookSummaryV;

    open spec fn deep_view(&self) -> BookSummaryV {
        self.view()
    }
}

pub open spec fn opt_view(o: Option<String>) -> Option<Seq<char>> {
    match o {
        Some(s) => Some(s@),
        None => None,
    }
}

/// One raw item-detail record: the three consumed fields as they were
/// found.  Extraneous upstream fields are ignored by design.
#[derive(Clone, Debug)]
pub struct ItemRecord {
    pub title: Option<String>,
    pub author: Option<String>,
    pub description: Option<String>,
}

pub struct ItemRecordV {
    pub title: Option<Seq<char>>,
    pub author: Option<Seq<char>>,
    pub description: Option<Seq<char>>,
}

impl View for ItemRecord {
    type V = ItemRecordV;

    open spec fn view(&self) -> ItemRecordV {
        ItemRecordV {
            title: opt_view(self.title),
            author: opt_view(self.author),
            description: opt_view(self.description),
        }
    }
}

impl DeepView for ItemRecord {
    type V = ItemRecordV;

    open spec fn deep_view(&self) -> ItemRecordV {
        self.view()
    }
}

impl ItemRecordV {
    /// A record is complete when every required field is present.
    pub open spec fn complete(self) -> bool {
        self.title is Some && self.author is Some && self.description is Some
    }

    pub open spec fn summary(self) -> BookSummaryV {
        BookSummaryV {
            title: self.title->0,
            author: self.author->0,
            description: self.description->0,
        }
    }
}

/// One per-result block of the items-in-category response: the nested
/// sequence of raw item-detail records.
#[derive(Clone, Debug)]
pub struct BookDetailsType {
    pub book_details: Vec<ItemRecord>,
}

impl View for BookDetailsType {
    type V = Seq<ItemRecordV>;

    open spec fn view(&self) -> Seq<ItemRecordV> {
        self.book_details.deep_view()
    }
}

impl DeepView for BookDetailsType {
    type V = Seq<ItemRecordV>;

    open spec fn deep_view(&self) -> Seq<ItemRecordV> {
        self.view()
    }
}

/// The items-in-category response: its ordered per-result blocks.
#[derive(Clone, Debug)]
pub struct ListsType {
    pub results: Vec<BookDetailsType>,
}

impl View for ListsType {
    type V = Seq<Seq<ItemRecordV>>;

    open spec fn view(&self) -> Seq<Seq<ItemRecordV>> {
        self.results.deep_view()
    }
}

/// One entry of the list-of-categories response: its `list_name` field,
/// when the entry carried one.
#[derive(Clone, Debug)]
pub struct NameRecord {
    pub list_name: Option<String>,
}

impl View for NameRecord {
    type V = Option<Seq<char>>;

    open spec fn view(&self) -> Option<Seq<char>> {
        opt_view(self.list_name)
    }
}

impl DeepView for NameRecord {
    type V = Option<Seq<char>>;

    open spec fn deep_view(&self) -> Option<Seq<char>> {
        self.view()
    }
}

/// The list-of-categories response: its ordered entries.
#[derive(Clone, Debug)]
pub struct Obj {
    pub results: Vec<NameRecord>,
}

impl View for Obj {
    type V = Seq<Option<Seq<char>>>;

    open spec fn view(&self) -> Seq<Option<Seq<char>>> {
        self.results.deep_view()
    }
}

// ---------------------------------------------------------------------
// Extraction
// ---------------------------------------------------------------------

/// The category names present in the entries, in entry order.
pub open spec fn extracted_names(rs: Seq<Option<Seq<char>>>) -> Seq<Seq<char>>
    decreases rs.len(),
{
    if rs.len() == 0 {
        Seq::empty()
    } else {
        extracted_names(rs.drop_last()) + match rs.last() {
            Some(n) => seq![n],
            None => Seq::<Seq<char>>::empty(),
        }
    }
}

/// All item records of all blocks, outer-to-inner, in source order.
pub open spec fn all_items(blocks: Seq<Seq<ItemRecordV>>) -> Seq<ItemRecordV>
    decreases blocks.len(),
{
    if blocks.len() == 0 {
        Seq::empty()
    } else {
        all_items(blocks.drop_last()) + blocks.last()
    }
}

/// The summaries of a sequence of records, in order.
pub open spec fn summaries_of(items: Seq<ItemRecordV>) -> Seq<BookSummaryV>
    decreases items.len(),
{
    if items.len() == 0 {
        Seq::empty()
    } else {
        summaries_of(items.drop_last()) + seq![items.last().summary()]
    }
}

/// Where item `ii` of block `bi` stands inside `all_items`.
pub proof fn lemma_all_items_index(blocks: Seq<Seq<ItemRecordV>>, bi: int, ii: int)
    requires
        0 <= bi < blocks.len(),
        0 <= ii < blocks[bi].len(),
    ensures
        all_items(blocks.take(bi)).len() + ii < all_items(blocks).len(),
        all_items(blocks)[all_items(blocks.take(bi)).len() + ii] == blocks[bi][ii],
    decreases blocks.len(),
{
    if bi == blocks.len() - 1 {
        assert(blocks.take(bi) =~= blocks.drop_last());
    } else {
        lemma_all_items_index(blocks.drop_last(), bi, ii);
        assert(blocks.drop_last().take(bi) =~= blocks.take(bi));
    }
}

impl Obj {
    /// Every `list_name` found among the entries, in order; `None` when
    /// there is none at all, so that the caller reports an empty result
    /// instead of producing an empty success value.
    pub fn get_list_names(&self) -> (r: Option<Vec<String>>)
        ensures
            (extracted_names(self@).len() == 0) == (r is None),
            r is Some ==> r->0.deep_view() == extracted_names(self@),
    {
        let mut names: Vec<String> = Vec::new();
        let n = self.results.len();
        let mut i: usize = 0;
        while i < n
            invariant
                i <= n,
                n == self.results.len(),
                names.deep_view() == extracted_names(self@.take(i as int)),
            decreases n - i,
        {
            proof {
                assert(self@.take(i + 1).drop_last() =~= self@.take(i as int));
                assert(self@.take(i + 1).last() == self@[i as int]);
            }
            let ghost pre = names.deep_view();
            let rec = &self.results[i];
            match &rec.list_name {
                Some(name) => {
                    names.push(name.clone());
                    proof {
                        assert(names.deep_view() =~= pre.push(name@));
                        assert(extracted_names(self@.take(i + 1)) =~= pre.push(name@));
                    }
                },
                None => {
                    proof {
                        assert(extracted_names(self@.take(i + 1)) =~= pre);
                    }
                },
            }
            i += 1;
        }
        proof {
            assert(self@.take(n as int) =~= self@);
        }
        if names.len() > 0 {
            Some(names)
        } else {
            None
        }
    }
}

impl ListsType {
    /// Extract every (title, author, description) triple, outer block to
    /// inner record, in source order.  A record missing a required field
    /// is a data-contract violation, reported as `MalformedRecord`; a
    /// response with zero records is reported as `EmptyResult`.
    pub fn top_book_details(&self) -> (r: Result<Vec<BookSummary>, ApiError>)
        ensures
            ({
                let items = all_items(self@);
                if exists|k: int| 0 <= k < items.len() && !(#[trigger] items[k]).complete() {
                    r == Err::<Vec<BookSummary>, ApiError>(ApiError::MalformedRecord)
                } else if items.len() == 0 {
                    r == Err::<Vec<BookSummary>, ApiError>(ApiError::EmptyResult)
                } else {
                    r is Ok && r->Ok_0.deep_view() == summaries_of(items)
                }
            }),
    {
        let mut out: Vec<BookSummary> = Vec::new();
        let ghost mut done: Seq<ItemRecordV> = Seq::empty();
        let nb = self.results.len();
        let mut bi: usize = 0;
        while bi < nb
            invariant
                bi <= nb,
                nb == self.results.len(),
                done == all_items(self@.take(bi as int)),
                forall|k: int| 0 <= k < done.len() ==> (#[trigger] done[k]).complete(),
                out.deep_view() == summaries_of(done),
            decreases nb - bi,
        {
            let block = &self.results[bi];
            let ni = block.book_details.len();
            let mut ii: usize = 0;
            while ii < ni
                invariant
                    ii <= ni,
                    bi < nb,
                    nb == self.results.len(),
                    ni == self.results@[bi as int].book_details.len(),
                    done == all_items(self@.take(bi as int)) + self@[bi as int].take(ii as int),
                    forall|k: int| 0 <= k < done.len() ==> (#[trigger] done[k]).complete(),
                    out.deep_view() == summaries_of(done),
                decreases ni - ii,
            {
                let item = &self.results[bi].book_details[ii];
                let ghost itemv = self@[bi as int][ii as int];
                proof {
                    assert(self@[bi as int] == self.results@[bi as int].deep_view());
                    assert(itemv == self.results@[bi as int].book_details@[ii as int].deep_view());
                }
                match (&item.title, &item.author, &item.description) {
                    (Some(t), Some(a), Some(d)) => {
                        let ghost pre = out.deep_view();
                        out.push(
                            BookSummary {
                                title: t.clone(),
                                author: a.clone(),
                                description: d.clone(),
                            },
                        );
                        proof {
                            assert(out.deep_view() =~= pre.push(itemv.summary()));
                            let done2 = done.push(itemv);
                            assert(done2.drop_last() =~= done);
                            assert(summaries_of(done2) =~= pre.push(itemv.summary()));
                            assert(self@[bi as int].take(ii + 1) =~= self@[
                                bi as int
                            ].take(ii as int).push(itemv));
                            assert(done2 =~= all_items(self@.take(bi as int)) + self@[
                                bi as int
                            ].take(ii + 1));
                            done = done2;
                        }
                    },
                    _ => {
                        proof {
                            lemma_all_items_index(self@, bi as int, ii as int);
                            let k = all_items(self@.take(bi as int)).len() + ii;
                            assert(!all_items(self@)[k].complete());
                        }
                        return Err(ApiError::MalformedRecord);
                    },
                }
                ii += 1;
            }
            proof {
                assert(self@.take(bi + 1).drop_last() =~= self@.take(bi as int));
                assert(self@.take(bi + 1).last() == self@[bi as int]);
                assert(self@[bi as int].take(ii as int) =~= self@[bi as int]);
                assert(all_items(self@.take(bi + 1)) =~= done);
            }
            bi += 1;
        }
        proof {
            assert(self@.take(nb as int) =~= self@);
        }
        if out.len() > 0 {
            Ok(out)
        } else {
            Err(ApiError::EmptyResult)
        }
    }
}

} // verus!
