//! The catalog client's computing half: deserialization of the two
//! endpoint bodies into the typed responses, the request URLs, and the
//! API credential.
//!
//! The spec functions define exactly which bodies deserialize and what
//! they yield; the exec functions are proved equal to them.  Unknown
//! members of every object are skipped by design; the members this core
//! consumes are captured.

use vstd::prelude::*;
use vstd::string::*;

use crate::json::{
    adv, parse_string, skip_value, skip_ws, sp_parse_string, sp_skip_value, sp_skip_ws,
};
use crate::model::{
    all_items, extracted_names, opt_view, summaries_of, ApiError, BookDetailsType, BookSummary,
    BookSummaryV, ItemRecord, ItemRecordV, ListsType, NameRecord, Obj,
};

verus! {

// ---------------------------------------------------------------------
// Shared helpers
// ---------------------------------------------------------------------

pub(crate) fn str_eq_lit(a: &String, b: &str) -> (r: bool)
    ensures
        r == (a@ == b@),
{
    let bo: String = b.to_owned();
    *a == bo
}

// ---------------------------------------------------------------------
// The list-of-categories body ("names" endpoint)
// ---------------------------------------------------------------------

/// Members of one entry object of the `results` array, from `i` (just
/// after `{` or after a separator).  The captured member is
/// `list_name`; its last occurrence decides, and a non-string value
/// counts as absent.
pub open spec fn sp_name_members(s: Seq<char>, i: int, first: bool, acc: Option<Seq<char>>) -> Option<
    (Option<Seq<char>>, int),
>
    decreases s.len() - i,
{
    let j = sp_skip_ws(s, i);
    if !(0 <= j < s.len()) {
        None
    } else if s[j] == '}' {
        Some((acc, j + 1))
    } else {
        let j1 = if first {
            j
        } else if s[j] == ',' {
            sp_skip_ws(s, j + 1)
        } else {
            s.len() as int  // not a separator: fail below
        };
        if !(0 <= j1 < s.len() && s[j1] == '"') {
            None
        } else {
            match sp_parse_string(s, j1) {
                Some(kv) => {
                    let j2 = sp_skip_ws(s, adv(i, kv.1, s.len() as int));
                    if !(0 <= j2 < s.len() && s[j2] == ':') {
                        None
                    } else {
                        let j3 = sp_skip_ws(s, j2 + 1);
                        if kv.0 == "list_name"@ {
                            if 0 <= j3 < s.len() && s[j3] == '"' {
                                match sp_parse_string(s, j3) {
                                    Some(vv) => sp_name_members(
                                        s,
                                        adv(i, vv.1, s.len() as int),
                                        false,
                                        Some(vv.0),
                                    ),
                                    None => None,
                                }
                            } else {
                                match sp_skip_value(s, j3) {
                                    Some(j4) => sp_name_members(
                                        s,
                                        adv(i, j4, s.len() as int),
                                        false,
                                        None,
                                    ),
                                    None => None,
                                }
                            }
                        } else {
                            match sp_skip_value(s, j3) {
                                Some(j4) => sp_name_members(s, adv(i, j4, s.len() as int), false, acc),
                                None => None,
                            }
                        }
                    }
                },
                None => None,
            }
        }
    }
}

/// One entry object of the `results` array.
pub open spec fn sp_name_entry(s: Seq<char>, i: int) -> Option<(Option<Seq<char>>, int)> {
    if 0 <= i < s.len() && s[i] == '{' {
        sp_name_members(s, i + 1, true, None)
    } else {
        None
    }
}

/// Elements of the `results` array of the names body, each of which
/// must be an object.
pub open spec fn sp_names_items(
    s: Seq<char>,
    i: int,
    first: bool,
    acc: Seq<Option<Seq<char>>>,
) -> Option<(Seq<Option<Seq<char>>>, int)>
    decreases s.len() - i,
{
    let j = sp_skip_ws(s, i);
    if !(0 <= j < s.len()) {
        None
    } else if s[j] == ']' {
        Some((acc, j + 1))
    } else {
        let j1 = if first {
            j
        } else if s[j] == ',' {
            sp_skip_ws(s, j + 1)
        } else {
            s.len() as int
        };
        match sp_name_entry(s, j1) {
            Some(ev) => sp_names_items(s, adv(i, ev.1, s.len() as int), false, acc.push(ev.0)),
            None => None,
        }
    }
}

/// Members of the top-level names object.  The captured member is
/// `results`, which must be an array of objects.
pub open spec fn sp_names_members(
    s: Seq<char>,
    i: int,
    first: bool,
    acc: Option<Seq<Option<Seq<char>>>>,
) -> Option<(Option<Seq<Option<Seq<char>>>>, int)>
    decreases s.len() - i,
{
    let j = sp_skip_ws(s, i);
    if !(0 <= j < s.len()) {
        None
    } else if s[j] == '}' {
        Some((acc, j + 1))
    } else {
        let j1 = if first {
            j
        } else if s[j] == ',' {
            sp_skip_ws(s, j + 1)
        } else {
            s.len() as int
        };
        if !(0 <= j1 < s.len() && s[j1] == '"') {
            None
        } else {
            match sp_parse_string(s, j1) {
                Some(kv) => {
                    let j2 = sp_skip_ws(s, adv(i, kv.1, s.len() as int));
                    if !(0 <= j2 < s.len() && s[j2] == ':') {
                        None
                    } else {
                        let j3 = sp_skip_ws(s, j2 + 1);
                        if kv.0 == "results"@ {
                            if 0 <= j3 < s.len() && s[j3] == '[' {
                                match sp_names_items(s, adv(i, j3 + 1, s.len() as int), true, Seq::empty()) {
                                    Some(av) => sp_names_members(
                                        s,
                                        adv(i, av.1, s.len() as int),
                                        false,
                                        Some(av.0),
                                    ),
                                    None => None,
                                }
                            } else {
                                None
                            }
                        } else {
                            match sp_skip_value(s, j3) {
                                Some(j4) => sp_names_members(s, adv(i, j4, s.len() as int), false, acc),
                                None => None,
                            }
                        }
                    }
                },
                None => None,
            }
        }
    }
}

/// The whole names body: one top-level object carrying a `results`
/// array, then the end of the input.
pub open spec fn sp_names_doc(s: Seq<char>) -> Option<Seq<Option<Seq<char>>>> {
    let i = sp_skip_ws(s, 0);
    if 0 <= i < s.len() && s[i] == '{' {
        match sp_names_members(s, i + 1, true, None) {
            Some(mv) => {
                if sp_skip_ws(s, mv.1) == s.len() as int {
                    mv.0
                } else {
                    None
                }
            },
            None => None,
        }
    } else {
        None
    }
}

#[verifier::rlimit(100)]
#[verifier::spinoff_prover]
fn name_members(s: &str, i: usize, first: bool, acc: Option<String>) -> (r: Option<
    (Option<String>, usize),
>)
    requires
        i <= s@.len(),
    ensures
        (r is Some) == (sp_name_members(s@, i as int, first, opt_view(acc)) is Some),
        r is Some ==> ({
            let t = sp_name_members(s@, i as int, first, opt_view(acc))->0;
            let p = r->0;
            &&& opt_view(p.0) == t.0
            &&& p.1 == t.1
            &&& i < p.1 <= s@.len()
        }),
    decreases s@.len() - i,
{
    let n = s.unicode_len();
    let j = skip_ws(s, i);
    if j >= n {
        return None;
    }
    let c = s.get_char(j);
    if c == '}' {
        return Some((acc, j + 1));
    }
    let j1 = if first {
        j
    } else if c == ',' {
        skip_ws(s, j + 1)
    } else {
        n
    };
    if j1 >= n {
        return None;
    }
    if s.get_char(j1) != '"' {
        return None;
    }
    match parse_string(s, j1) {
        Some(kp) => {
            let (key, jk) = kp;
            assert(adv(i as int, jk as int, s@.len() as int) == jk as int);
            let j2 = skip_ws(s, jk);
            if j2 >= n {
                return None;
            }
            if s.get_char(j2) != ':' {
                return None;
            }
            let j3 = skip_ws(s, j2 + 1);
            if str_eq_lit(&key, "list_name") {
                if j3 < n && s.get_char(j3) == '"' {
                    match parse_string(s, j3) {
                        Some(vp) => {
                            let (val, jv) = vp;
                            assert(adv(i as int, jv as int, s@.len() as int) == jv as int);
                            name_members(s, jv, false, Some(val))
                        },
                        None => None,
                    }
                } else {
                    match skip_value(s, j3) {
                        Some(j4) => {
                            assert(adv(i as int, j4 as int, s@.len() as int) == j4 as int);
                            name_members(s, j4, false, None)
                        },
                        None => None,
                    }
                }
            } else {
                match skip_value(s, j3) {
                    Some(j4) => {
                        assert(adv(i as int, j4 as int, s@.len() as int) == j4 as int);
                        name_members(s, j4, false, acc)
                    },
                    None => None,
                }
            }
        },
        None => None,
    }
}

fn name_entry(s: &str, i: usize) -> (r: Option<(Option<String>, usize)>)
    requires
        i <= s@.len(),
    ensures
        (r is Some) == (sp_name_entry(s@, i as int) is Some),
        r is Some ==> ({
            let t = sp_name_entry(s@, i as int)->0;
            let p = r->0;
            &&& opt_view(p.0) == t.0
            &&& p.1 == t.1
            &&& i < p.1 <= s@.len()
        }),
{
    let n = s.unicode_len();
    if i >= n {
        return None;
    }
    if s.get_char(i) != '{' {
        return None;
    }
    name_members(s, i + 1, true, None)
}

fn names_items(s: &str, i: usize, first: bool, acc: Vec<NameRecord>) -> (r: Option<
    (Vec<NameRecord>, usize),
>)
    requires
        i <= s@.len(),
    ensures
        (r is Some) == (sp_names_items(s@, i as int, first, acc.deep_view()) is Some),
        r is Some ==> ({
            let t = sp_names_items(s@, i as int, first, acc.deep_view())->0;
            let p = r->0;
            &&& p.0.deep_view() == t.0
            &&& p.1 == t.1
            &&& i < p.1 <= s@.len()
        }),
    decreases s@.len() - i,
{
    let n = s.unicode_len();
    let j = skip_ws(s, i);
    if j >= n {
        return None;
    }
    let c = s.get_char(j);
    if c == ']' {
        return Some((acc, j + 1));
    }
    let j1 = if first {
        j
    } else if c == ',' {
        skip_ws(s, j + 1)
    } else {
        n
    };
    match name_entry(s, j1) {
        Some(ep) => {
            let (nm, je) = ep;
            assert(adv(i as int, je as int, s@.len() as int) == je as int);
            let ghost acc0 = acc.deep_view();
            let mut acc2 = acc;
            acc2.push(NameRecord { list_name: nm });
            proof {
                assert(acc2.deep_view() =~= acc0.push(opt_view(nm)));
            }
            names_items(s, je, false, acc2)
        },
        None => None,
    }
}

#[verifier::rlimit(100)]
#[verifier::spinoff_prover]
fn names_members(s: &str, i: usize, first: bool, acc: Option<Vec<NameRecord>>) -> (r: Option<
    (Option<Vec<NameRecord>>, usize),
>)
    requires
        i <= s@.len(),
    ensures
        (r is Some) == (sp_names_members(s@, i as int, first, opt_deep_view(acc)) is Some),
        r is Some ==> ({
            let t = sp_names_members(s@, i as int, first, opt_deep_view(acc))->0;
            let p = r->0;
            &&& opt_deep_view(p.0) == t.0
            &&& p.1 == t.1
            &&& i < p.1 <= s@.len()
        }),
    decreases s@.len() - i,
{
    let n = s.unicode_len();
    let j = skip_ws(s, i);
    if j >= n {
        return None;
    }
    let c = s.get_char(j);
    if c == '}' {
        return Some((acc, j + 1));
    }
    let j1 = if first {
        j
    } else if c == ',' {
        skip_ws(s, j + 1)
    } else {
        n
    };
    if j1 >= n {
        return None;
    }
    if s.get_char(j1) != '"' {
        return None;
    }
    match parse_string(s, j1) {
        Some(kp) => {
            let (key, jk) = kp;
            assert(adv(i as int, jk as int, s@.len() as int) == jk as int);
            let j2 = skip_ws(s, jk);
            if j2 >= n {
                return None;
            }
            if s.get_char(j2) != ':' {
                return None;
            }
            let j3 = skip_ws(s, j2 + 1);
            if str_eq_lit(&key, "results") {
                if j3 < n && s.get_char(j3) == '[' {
                    assert(adv(i as int, j3 as int + 1, s@.len() as int) == j3 as int + 1);
                    let empty_acc: Vec<NameRecord> = Vec::new();
                    proof {
                        assert(empty_acc.deep_view() =~= Seq::<Option<Seq<char>>>::empty());
                    }
                    match names_items(s, j3 + 1, true, empty_acc) {
                        Some(ap) => {
                            let (rs, ja) = ap;
                            assert(adv(i as int, ja as int, s@.len() as int) == ja as int);
                            names_members(s, ja, false, Some(rs))
                        },
                        None => None,
                    }
                } else {
                    None
                }
            } else {
                match skip_value(s, j3) {
                    Some(j4) => {
                        assert(adv(i as int, j4 as int, s@.len() as int) == j4 as int);
                        names_members(s, j4, false, acc)
                    },
                    None => None,
                }
            }
        },
        None => None,
    }
}

/// View of an optional collection of entries.
pub open spec fn opt_deep_view(o: Option<Vec<NameRecord>>) -> Option<Seq<Option<Seq<char>>>> {
    match o {
        Some(v) => Some(v.deep_view()),
        None => None,
    }
}

/// Deserialize a names body into the typed response.
fn parse_names_body(s: &str) -> (r: Option<Obj>)
    ensures
        (r is Some) == (sp_names_doc(s@) is Some),
        r is Some ==> r->0@ == sp_names_doc(s@)->0,
{
    let n = s.unicode_len();
    let i = skip_ws(s, 0);
    if i >= n {
        return None;
    }
    if s.get_char(i) != '{' {
        return None;
    }
    match names_members(s, i + 1, true, None) {
        Some(mp) => {
            let (acc, jm) = mp;
            let je = skip_ws(s, jm);
            if je != n {
                return None;
            }
            match acc {
                Some(rs) => Some(Obj { results: rs }),
                None => None,
            }
        },
        None => None,
    }
}

// ---------------------------------------------------------------------
// The items-in-category body ("lists" endpoint)
// ---------------------------------------------------------------------

/// Members of one raw item-detail record.  The captured members are
/// `title`, `author` and `description`; for each, the last occurrence
/// decides and a non-string value counts as absent.
pub open spec fn sp_item_members(s: Seq<char>, i: int, first: bool, acc: ItemRecordV) -> Option<
    (ItemRecordV, int),
>
    decreases s.len() - i,
{
    let j = sp_skip_ws(s, i);
    if !(0 <= j < s.len()) {
        None
    } else if s[j] == '}' {
        Some((acc, j + 1))
    } else {
        let j1 = if first {
            j
        } else if s[j] == ',' {
            sp_skip_ws(s, j + 1)
        } else {
            s.len() as int
        };
        if !(0 <= j1 < s.len() && s[j1] == '"') {
            None
        } else {
            match sp_parse_string(s, j1) {
                Some(kv) => {
                    let j2 = sp_skip_ws(s, adv(i, kv.1, s.len() as int));
                    if !(0 <= j2 < s.len() && s[j2] == ':') {
                        None
                    } else {
                        let j3 = sp_skip_ws(s, j2 + 1);
                        if kv.0 == "title"@ || kv.0 == "author"@ || kv.0 == "description"@ {
                            if 0 <= j3 < s.len() && s[j3] == '"' {
                                match sp_parse_string(s, j3) {
                                    Some(vv) => sp_item_members(
                                        s,
                                        adv(i, vv.1, s.len() as int),
                                        false,
                                        item_with(acc, kv.0, Some(vv.0)),
                                    ),
                                    None => None,
                                }
                            } else {
                                match sp_skip_value(s, j3) {
                                    Some(j4) => sp_item_members(
                                        s,
                                        adv(i, j4, s.len() as int),
                                        false,
                                        item_with(acc, kv.0, None),
                                    ),
                                    None => None,
                                }
                            }
                        } else {
                            match sp_skip_value(s, j3) {
                                Some(j4) => sp_item_members(s, adv(i, j4, s.len() as int), false, acc),
                                None => None,
                            }
                        }
                    }
                },
                None => None,
            }
        }
    }
}

/// The record with the named captured field replaced.
pub open spec fn item_with(acc: ItemRecordV, key: Seq<char>, v: Option<Seq<char>>) -> ItemRecordV {
    if key == "title"@ {
        ItemRecordV { title: v, ..acc }
    } else if key == "author"@ {
        ItemRecordV { author: v, ..acc }
    } else {
        ItemRecordV { description: v, ..acc }
    }
}

/// One raw item-detail record object.
pub open spec fn sp_item(s: Seq<char>, i: int) -> Option<(ItemRecordV, int)> {
    if 0 <= i < s.len() && s[i] == '{' {
        sp_item_members(
            s,
            i + 1,
            true,
            ItemRecordV { title: None, author: None, description: None },
        )
    } else {
        None
    }
}

/// Elements of a `book_details` array, each of which must be an object.
pub open spec fn sp_items_list(s: Seq<char>, i: int, first: bool, acc: Seq<ItemRecordV>) -> Option<
    (Seq<ItemRecordV>, int),
>
    decreases s.len() - i,
{
    let j = sp_skip_ws(s, i);
    if !(0 <= j < s.len()) {
        None
    } else if s[j] == ']' {
        Some((acc, j + 1))
    } else {
        let j1 = if first {
            j
        } else if s[j] == ',' {
            sp_skip_ws(s, j + 1)
        } else {
            s.len() as int
        };
        match sp_item(s, j1) {
            Some(ev) => sp_items_list(s, adv(i, ev.1, s.len() as int), false, acc.push(ev.0)),
            None => None,
        }
    }
}

/// Members of one per-result block.  The captured member is
/// `book_details`, which must be an array of objects; a block without
/// it does not fit the response shape.
pub open spec fn sp_block_members(
    s: Seq<char>,
    i: int,
    first: bool,
    acc: Option<Seq<ItemRecordV>>,
) -> Option<(Option<Seq<ItemRecordV>>, int)>
    decreases s.len() - i,
{
    let j = sp_skip_ws(s, i);
    if !(0 <= j < s.len()) {
        None
    } else if s[j] == '}' {
        Some((acc, j + 1))
    } else {
        let j1 = if first {
            j
        } else if s[j] == ',' {
            sp_skip_ws(s, j + 1)
        } else {
            s.len() as int
        };
        if !(0 <= j1 < s.len() && s[j1] == '"') {
            None
        } else {
            match sp_parse_string(s, j1) {
                Some(kv) => {
                    let j2 = sp_skip_ws(s, adv(i, kv.1, s.len() as int));
                    if !(0 <= j2 < s.len() && s[j2] == ':') {
                        None
                    } else {
                        let j3 = sp_skip_ws(s, j2 + 1);
                        if kv.0 == "book_details"@ {
                            if 0 <= j3 < s.len() && s[j3] == '[' {
                                match sp_items_list(s, adv(i, j3 + 1, s.len() as int), true, Seq::empty()) {
                                    Some(av) => sp_block_members(
                                        s,
                                        adv(i, av.1, s.len() as int),
                                        false,
                                        Some(av.0),
                                    ),
                                    None => None,
                                }
                            } else {
                                None
                            }
                        } else {
                            match sp_skip_value(s, j3) {
                                Some(j4) => sp_block_members(s, adv(i, j4, s.len() as int), false, acc),
                                None => None,
                            }
                        }
                    }
                },
                None => None,
            }
        }
    }
}

/// One per-result block object, which must carry `book_details`.
pub open spec fn sp_block(s: Seq<char>, i: int) -> Option<(Seq<ItemRecordV>, int)> {
    if 0 <= i < s.len() && s[i] == '{' {
        match sp_block_members(s, i + 1, true, None) {
            Some(bv) => match bv.0 {
                Some(items) => Some((items, bv.1)),
                None => None,
            },
            None => None,
        }
    } else {
        None
    }
}

/// Elements of the `results` array of the lists body.
pub open spec fn sp_blocks_list(
    s: Seq<char>,
    i: int,
    first: bool,
    acc: Seq<Seq<ItemRecordV>>,
) -> Option<(Seq<Seq<ItemRecordV>>, int)>
    decreases s.len() - i,
{
    let j = sp_skip_ws(s, i);
    if !(0 <= j < s.len()) {
        None
    } else if s[j] == ']' {
        Some((acc, j + 1))
    } else {
        let j1 = if first {
            j
        } else if s[j] == ',' {
            sp_skip_ws(s, j + 1)
        } else {
            s.len() as int
        };
        match sp_block(s, j1) {
            Some(ev) => sp_blocks_list(s, adv(i, ev.1, s.len() as int), false, acc.push(ev.0)),
            None => None,
        }
    }
}

/// Members of the top-level lists object.  The captured member is
/// `results`, which must be an array of block objects.
pub open spec fn sp_lists_members(
    s: Seq<char>,
    i: int,
    first: bool,
    acc: Option<Seq<Seq<ItemRecordV>>>,
) -> Option<(Option<Seq<Seq<ItemRecordV>>>, int)>
    decreases s.len() - i,
{
    let j = sp_skip_ws(s, i);
    if !(0 <= j < s.len()) {
        None
    } else if s[j] == '}' {
        Some((acc, j + 1))
    } else {
        let j1 = if first {
            j
        } else if s[j] == ',' {
            sp_skip_ws(s, j + 1)
        } else {
            s.len() as int
        };
        if !(0 <= j1 < s.len() && s[j1] == '"') {
            None
        } else {
            match sp_parse_string(s, j1) {
                Some(kv) => {
                    let j2 = sp_skip_ws(s, adv(i, kv.1, s.len() as int));
                    if !(0 <= j2 < s.len() && s[j2] == ':') {
                        None
                    } else {
                        let j3 = sp_skip_ws(s, j2 + 1);
                        if kv.0 == "results"@ {
                            if 0 <= j3 < s.len() && s[j3] == '[' {
                                match sp_blocks_list(s, adv(i, j3 + 1, s.len() as int), true, Seq::empty()) {
                                    Some(av) => sp_lists_members(
                                        s,
                                        adv(i, av.1, s.len() as int),
                                        false,
                                        Some(av.0),
                                    ),
                                    None => None,
                                }
                            } else {
                                None
                            }
                        } else {
                            match sp_skip_value(s, j3) {
                                Some(j4) => sp_lists_members(s, adv(i, j4, s.len() as int), false, acc),
                                None => None,
                            }
                        }
                    }
                },
                None => None,
            }
        }
    }
}

/// The whole lists body: one top-level object carrying a `results`
/// array of blocks, then the end of the input.
pub open spec fn sp_lists_doc(s: Seq<char>) -> Option<Seq<Seq<ItemRecordV>>> {
    let i = sp_skip_ws(s, 0);
    if 0 <= i < s.len() && s[i] == '{' {
        match sp_lists_members(s, i + 1, true, None) {
            Some(mv) => {
                if sp_skip_ws(s, mv.1) == s.len() as int {
                    mv.0
                } else {
                    None
                }
            },
            None => None,
        }
    } else {
        None
    }
}

#[verifier::rlimit(100)]
#[verifier::spinoff_prover]
fn item_members(s: &str, i: usize, first: bool, acc: ItemRecord) -> (r: Option<(ItemRecord, usize)>)
    requires
        i <= s@.len(),
    ensures
        (r is Some) == (sp_item_members(s@, i as int, first, acc@) is Some),
        r is Some ==> ({
            let t = sp_item_members(s@, i as int, first, acc@)->0;
            let p = r->0;
            &&& p.0@ == t.0
            &&& p.1 == t.1
            &&& i < p.1 <= s@.len()
        }),
    decreases s@.len() - i,
{
    let n = s.unicode_len();
    let j = skip_ws(s, i);
    if j >= n {
        return None;
    }
    let c = s.get_char(j);
    if c == '}' {
        return Some((acc, j + 1));
    }
    let j1 = if first {
        j
    } else if c == ',' {
        skip_ws(s, j + 1)
    } else {
        n
    };
    if j1 >= n {
        return None;
    }
    if s.get_char(j1) != '"' {
        return None;
    }
    match parse_string(s, j1) {
        Some(kp) => {
            let (key, jk) = kp;
            assert(adv(i as int, jk as int, s@.len() as int) == jk as int);
            let j2 = skip_ws(s, jk);
            if j2 >= n {
                return None;
            }
            if s.get_char(j2) != ':' {
                return None;
            }
            let j3 = skip_ws(s, j2 + 1);
            let is_title = str_eq_lit(&key, "title");
            let is_author = str_eq_lit(&key, "author");
            let is_description = str_eq_lit(&key, "description");
            if is_title || is_author || is_description {
                if j3 < n && s.get_char(j3) == '"' {
                    match parse_string(s, j3) {
                        Some(vp) => {
                            let (val, jv) = vp;
                            assert(adv(i as int, jv as int, s@.len() as int) == jv as int);
                            let acc2 = set_item_field(acc, is_title, is_author, Some(val));
                            proof {
                                assert(acc2@ == item_with(acc@, key@, Some(val@)));
                            }
                            item_members(s, jv, false, acc2)
                        },
                        None => None,
                    }
                } else {
                    match skip_value(s, j3) {
                        Some(j4) => {
                            assert(adv(i as int, j4 as int, s@.len() as int) == j4 as int);
                            let acc2 = set_item_field(acc, is_title, is_author, None);
                            proof {
                                assert(acc2@ == item_with(acc@, key@, None::<Seq<char>>));
                            }
                            item_members(s, j4, false, acc2)
                        },
                        None => None,
                    }
                }
            } else {
                match skip_value(s, j3) {
                    Some(j4) => {
                        assert(adv(i as int, j4 as int, s@.len() as int) == j4 as int);
                        item_members(s, j4, false, acc)
                    },
                    None => None,
                }
            }
        },
        None => None,
    }
}

fn set_item_field(acc: ItemRecord, is_title: bool, is_author: bool, v: Option<String>) -> (r:
    ItemRecord)
    ensures
        is_title ==> r@ == (ItemRecordV { title: opt_view(v), ..acc@ }),
        !is_title && is_author ==> r@ == (ItemRecordV { author: opt_view(v), ..acc@ }),
        !is_title && !is_author ==> r@ == (ItemRecordV { description: opt_view(v), ..acc@ }),
{
    let mut acc2 = acc;
    if is_title {
        acc2.title = v;
    } else if is_author {
        acc2.author = v;
    } else {
        acc2.description = v;
    }
    acc2
}

fn item(s: &str, i: usize) -> (r: Option<(ItemRecord, usize)>)
    requires
        i <= s@.len(),
    ensures
        (r is Some) == (sp_item(s@, i as int) is Some),
        r is Some ==> ({
            let t = sp_item(s@, i as int)->0;
            let p = r->0;
            &&& p.0@ == t.0
            &&& p.1 == t.1
            &&& i < p.1 <= s@.len()
        }),
{
    let n = s.unicode_len();
    if i >= n {
        return None;
    }
    if s.get_char(i) != '{' {
        return None;
    }
    item_members(s, i + 1, true, ItemRecord { title: None, author: None, description: None })
}

fn items_list(s: &str, i: usize, first: bool, acc: Vec<ItemRecord>) -> (r: Option<
    (Vec<ItemRecord>, usize),
>)
    requires
        i <= s@.len(),
    ensures
        (r is Some) == (sp_items_list(s@, i as int, first, acc.deep_view()) is Some),
        r is Some ==> ({
            let t = sp_items_list(s@, i as int, first, acc.deep_view())->0;
            let p = r->0;
            &&& p.0.deep_view() == t.0
            &&& p.1 == t.1
            &&& i < p.1 <= s@.len()
        }),
    decreases s@.len() - i,
{
    let n = s.unicode_len();
    let j = skip_ws(s, i);
    if j >= n {
        return None;
    }
    let c = s.get_char(j);
    if c == ']' {
        return Some((acc, j + 1));
    }
    let j1 = if first {
        j
    } else if c == ',' {
        skip_ws(s, j + 1)
    } else {
        n
    };
    match item(s, j1) {
        Some(ep) => {
            let (it, je) = ep;
            assert(adv(i as int, je as int, s@.len() as int) == je as int);
            let ghost acc0 = acc.deep_view();
            let ghost itv = it@;
            let mut acc2 = acc;
            acc2.push(it);
            proof {
                assert(acc2.deep_view() =~= acc0.push(itv));
            }
            items_list(s, je, false, acc2)
        },
        None => None,
    }
}

#[verifier::rlimit(100)]
#[verifier::spinoff_prover]
fn block_members(s: &str, i: usize, first: bool, acc: Option<Vec<ItemRecord>>) -> (r: Option<
    (Option<Vec<ItemRecord>>, usize),
>)
    requires
        i <= s@.len(),
    ensures
        (r is Some) == (sp_block_members(s@, i as int, first, items_deep_view(acc)) is Some),
        r is Some ==> ({
            let t = sp_block_members(s@, i as int, first, items_deep_view(acc))->0;
            let p = r->0;
            &&& items_deep_view(p.0) == t.0
            &&& p.1 == t.1
            &&& i < p.1 <= s@.len()
        }),
    decreases s@.len() - i,
{
    let n = s.unicode_len();
    let j = skip_ws(s, i);
    if j >= n {
        return None;
    }
    let c = s.get_char(j);
    if c == '}' {
        return Some((acc, j + 1));
    }
    let j1 = if first {
        j
    } else if c == ',' {
        skip_ws(s, j + 1)
    } else {
        n
    };
    if j1 >= n {
        return None;
    }
    if s.get_char(j1) != '"' {
        return None;
    }
    match parse_string(s, j1) {
        Some(kp) => {
            let (key, jk) = kp;
            assert(adv(i as int, jk as int, s@.len() as int) == jk as int);
            let j2 = skip_ws(s, jk);
            if j2 >= n {
                return None;
            }
            if s.get_char(j2) != ':' {
                return None;
            }
            let j3 = skip_ws(s, j2 + 1);
            if str_eq_lit(&key, "book_details") {
                if j3 < n && s.get_char(j3) == '[' {
                    assert(adv(i as int, j3 as int + 1, s@.len() as int) == j3 as int + 1);
                    let empty_acc: Vec<ItemRecord> = Vec::new();
                    proof {
                        assert(empty_acc.deep_view() =~= Seq::<ItemRecordV>::empty());
                    }
                    match items_list(s, j3 + 1, true, empty_acc) {
                        Some(ap) => {
                            let (items, ja) = ap;
                            assert(adv(i as int, ja as int, s@.len() as int) == ja as int);
                            block_members(s, ja, false, Some(items))
                        },
                        None => None,
                    }
                } else {
                    None
                }
            } else {
                match skip_value(s, j3) {
                    Some(j4) => {
                        assert(adv(i as int, j4 as int, s@.len() as int) == j4 as int);
                        block_members(s, j4, false, acc)
                    },
                    None => None,
                }
            }
        },
        None => None,
    }
}

/// View of an optional collection of item records.
pub open spec fn items_deep_view(o: Option<Vec<ItemRecord>>) -> Option<Seq<ItemRecordV>> {
    match o {
        Some(v) => Some(v.deep_view()),
        None => None,
    }
}

fn block(s: &str, i: usize) -> (r: Option<(Vec<ItemRecord>, usize)>)
    requires
        i <= s@.len(),
    ensures
        (r is Some) == (sp_block(s@, i as int) is Some),
        r is Some ==> ({
            let t = sp_block(s@, i as int)->0;
            let p = r->0;
            &&& p.0.deep_view() == t.0
            &&& p.1 == t.1
            &&& i < p.1 <= s@.len()
        }),
{
    let n = s.unicode_len();
    if i >= n {
        return None;
    }
    if s.get_char(i) != '{' {
        return None;
    }
    match block_members(s, i + 1, true, None) {
        Some(bp) => {
            let (items, jb) = bp;
            match items {
                Some(found) => Some((found, jb)),
                None => None,
            }
        },
        None => None,
    }
}

fn blocks_list(s: &str, i: usize, first: bool, acc: Vec<BookDetailsType>) -> (r: Option<
    (Vec<BookDetailsType>, usize),
>)
    requires
        i <= s@.len(),
    ensures
        (r is Some) == (sp_blocks_list(s@, i as int, first, acc.deep_view()) is Some),
        r is Some ==> ({
            let t = sp_blocks_list(s@, i as int, first, acc.deep_view())->0;
            let p = r->0;
            &&& p.0.deep_view() == t.0
            &&& p.1 == t.1
            &&& i < p.1 <= s@.len()
        }),
    decreases s@.len() - i,
{
    let n = s.unicode_len();
    let j = skip_ws(s, i);
    if j >= n {
        return None;
    }
    let c = s.get_char(j);
    if c == ']' {
        return Some((acc, j + 1));
    }
    let j1 = if first {
        j
    } else if c == ',' {
        skip_ws(s, j + 1)
    } else {
        n
    };
    match block(s, j1) {
        Some(ep) => {
            let (items, je) = ep;
            assert(adv(i as int, je as int, s@.len() as int) == je as int);
            let ghost acc0 = acc.deep_view();
            let ghost itemsv = items.deep_view();
            let mut acc2 = acc;
            acc2.push(BookDetailsType { book_details: items });
            proof {
                assert(acc2.deep_view() =~= acc0.push(itemsv));
            }
            blocks_list(s, je, false, acc2)
        },
        None => None,
    }
}

#[verifier::rlimit(100)]
#[verifier::spinoff_prover]
fn lists_members(s: &str, i: usize, first: bool, acc: Option<Vec<BookDetailsType>>) -> (r: Option<
    (Option<Vec<BookDetailsType>>, usize),
>)
    requires
        i <= s@.len(),
    ensures
        (r is Some) == (sp_lists_members(s@, i as int, first, blocks_deep_view(acc)) is Some),
        r is Some ==> ({
            let t = sp_lists_members(s@, i as int, first, blocks_deep_view(acc))->0;
            let p = r->0;
            &&& blocks_deep_view(p.0) == t.0
            &&& p.1 == t.1
            &&& i < p.1 <= s@.len()
        }),
    decreases s@.len() - i,
{
    let n = s.unicode_len();
    let j = skip_ws(s, i);
    if j >= n {
        return None;
    }
    let c = s.get_char(j);
    if c == '}' {
        return Some((acc, j + 1));
    }
    let j1 = if first {
        j
    } else if c == ',' {
        skip_ws(s, j + 1)
    } else {
        n
    };
    if j1 >= n {
        return None;
    }
    if s.get_char(j1) != '"' {
        return None;
    }
    match parse_string(s, j1) {
        Some(kp) => {
            let (key, jk) = kp;
            assert(adv(i as int, jk as int, s@.len() as int) == jk as int);
            let j2 = skip_ws(s, jk);
            if j2 >= n {
                return None;
            }
            if s.get_char(j2) != ':' {
                return None;
            }
            let j3 = skip_ws(s, j2 + 1);
            if str_eq_lit(&key, "results") {
                if j3 < n && s.get_char(j3) == '[' {
                    assert(adv(i as int, j3 as int + 1, s@.len() as int) == j3 as int + 1);
                    let empty_acc: Vec<BookDetailsType> = Vec::new();
                    proof {
                        assert(empty_acc.deep_view() =~= Seq::<Seq<ItemRecordV>>::empty());
                    }
                    match blocks_list(s, j3 + 1, true, empty_acc) {
                        Some(ap) => {
                            let (rs, ja) = ap;
                            assert(adv(i as int, ja as int, s@.len() as int) == ja as int);
                            lists_members(s, ja, false, Some(rs))
                        },
                        None => None,
                    }
                } else {
                    None
                }
            } else {
                match skip_value(s, j3) {
                    Some(j4) => {
                        assert(adv(i as int, j4 as int, s@.len() as int) == j4 as int);
                        lists_members(s, j4, false, acc)
                    },
                    None => None,
                }
            }
        },
        None => None,
    }
}

/// View of an optional collection of blocks.
pub open spec fn blocks_deep_view(o: Option<Vec<BookDetailsType>>) -> Option<Seq<Seq<ItemRecordV>>> {
    match o {
        Some(v) => Some(v.deep_view()),
        None => None,
    }
}

/// Deserialize a lists body into the typed response.
fn parse_lists_body(s: &str) -> (r: Option<ListsType>)
    ensures
        (r is Some) == (sp_lists_doc(s@) is Some),
        r is Some ==> r->0@ == sp_lists_doc(s@)->0,
{
    let n = s.unicode_len();
    let i = skip_ws(s, 0);
    if i >= n {
        return None;
    }
    if s.get_char(i) != '{' {
        return None;
    }
    match lists_members(s, i + 1, true, None) {
        Some(mp) => {
            let (acc, jm) = mp;
            let je = skip_ws(s, jm);
            if je != n {
                return None;
            }
            match acc {
                Some(rs) => Some(ListsType { results: rs }),
                None => None,
            }
        },
        None => None,
    }
}

// ---------------------------------------------------------------------
// The public client operations on a response body
// ---------------------------------------------------------------------

/// What the list-of-categories operation yields for a given body.
pub open spec fn sp_genre_lists(s: Seq<char>) -> Result<Seq<Seq<char>>, ApiError> {
    match sp_names_doc(s) {
        Some(rs) => {
            if extracted_names(rs).len() == 0 {
                Err(ApiError::EmptyResult)
            } else {
                Ok(extracted_names(rs))
            }
        },
        None => Err(ApiError::TransportError),
    }
}

/// What the items-in-category operation yields for a given body.
pub open spec fn sp_top_books(s: Seq<char>) -> Result<Seq<BookSummaryV>, ApiError> {
    match sp_lists_doc(s) {
        Some(blocks) => {
            let items = all_items(blocks);
            if exists|k: int| 0 <= k < items.len() && !(#[trigger] items[k]).complete() {
                Err(ApiError::MalformedRecord)
            } else if items.len() == 0 {
                Err(ApiError::EmptyResult)
            } else {
                Ok(summaries_of(items))
            }
        },
        None => Err(ApiError::TransportError),
    }
}

/// Deserialize the body of a "names" endpoint response and extract
/// every category name, in result order.  A body that does not fit the
/// response shape is a transport error; a body with zero names is an
/// empty result.
pub fn get_genre_lists(body: &str) -> (r: Result<Vec<String>, ApiError>)
    ensures
        (r is Ok) == (sp_genre_lists(body@) is Ok),
        r is Ok ==> r->Ok_0.deep_view() == sp_genre_lists(body@)->Ok_0,
        r is Err ==> r->Err_0 == sp_genre_lists(body@)->Err_0,
{
    match parse_names_body(body) {
        Some(obj) => match obj.get_list_names() {
            Some(names) => Ok(names),
            None => Err(ApiError::EmptyResult),
        },
        None => Err(ApiError::TransportError),
    }
}

/// Deserialize the body of a "lists" endpoint response and extract
/// every (title, author, description) summary, outer block to inner
/// record, in source order.  A body that does not fit the response
/// shape is a transport error; an item record missing a required field
/// is a malformed record; zero records is an empty result.
pub fn get_top_books(body: &str) -> (r: Result<Vec<BookSummary>, ApiError>)
    ensures
        (r is Ok) == (sp_top_books(body@) is Ok),
        r is Ok ==> r->Ok_0.deep_view() == sp_top_books(body@)->Ok_0,
        r is Err ==> r->Err_0 == sp_top_books(body@)->Err_0,
{
    match parse_lists_body(body) {
        Some(lists) => lists.top_book_details(),
        None => Err(ApiError::TransportError),
    }
}

// ---------------------------------------------------------------------
// Credential and request URLs
// ---------------------------------------------------------------------

/// The API credential, captured once at startup.  It is required to be
/// non-empty; a missing credential is a fatal startup condition, not a
/// per-call error.
pub struct ApiCredential {
    pub key: String,
}

impl ApiCredential {
    pub open spec fn wf(&self) -> bool {
        self.key@.len() > 0
    }

    /// Capture the credential; `None` exactly when it is absent.
    pub fn new(key: String) -> (r: Option<ApiCredential>)
        ensures
            (r is Some) == (key@.len() > 0),
            r is Some ==> r->0.wf() && r->0.key@ == key@,
    {
        if key.as_str().unicode_len() == 0 {
            None
        } else {
            Some(ApiCredential { key })
        }
    }
}

pub open spec fn sp_names_url(key: Seq<char>) -> Seq<char> {
    "https://api.nytimes.com/svc/books/v3/lists/names.json?api-key="@ + key
}

pub open spec fn sp_lists_url(category: Seq<char>, key: Seq<char>) -> Seq<char> {
    "https://api.nytimes.com/svc/books/v3/lists.json?list="@ + category + "&api-key="@ + key
}

/// The URL of the list-of-categories request.
pub fn names_url(credential: &ApiCredential) -> (r: String)
    ensures
        r@ == sp_names_url(credential.key@),
{
    let mut u: String = "https://api.nytimes.com/svc/books/v3/lists/names.json?api-key=".to_owned();
    u.append(credential.key.as_str());
    u
}

/// The URL of the items-in-category request.  The category identifier
/// must be non-empty; that is the one local validation the data model
/// asks of a category name.
pub fn lists_url(category: &str, credential: &ApiCredential) -> (r: String)
    requires
        category@.len() > 0,
    ensures
        r@ == sp_lists_url(category@, credential.key@),
{
    let mut u: String = "https://api.nytimes.com/svc/books/v3/lists.json?list=".to_owned();
    u.append(category);
    u.append("&api-key=");
    u.append(credential.key.as_str());
    u
}

} // verus!
