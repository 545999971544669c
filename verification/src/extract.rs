//! The extractor: walks a parsed JSON document and emits the cards that
//! survive the inclusion rules.
//!
//! A record without a rank, and a record whose price is null or absent, are
//! silently skipped. A ranked record missing a required field, or holding
//! one of the wrong shape, is fatal, as is a document whose top level is not
//! an array.

use vstd::prelude::*;
use crate::card::Card;
use crate::card::CardV;
use crate::card::card_views;
use crate::card::all_wf;
use crate::digits::uint_of_parts;
use crate::price::spec_parse_price;
use crate::price::parse_price;
use crate::text::bytes_eq;
use crate::text::byte_views;
use crate::text::copy_bytes;
use crate::tree::JTree;
use crate::tree::jmodel;
use crate::tree::tree_of;
use crate::tree::parse_document;
use crate::tree::is_array;
use crate::tree::is_object;
use crate::tree::is_null;
use crate::tree::array_elements;
use crate::tree::object_entries;
use crate::tree::as_text;
use crate::tree::number_parts;

verus! {

/// A fatal condition: the whole run aborts on any of these.
#[derive(Debug)]
pub enum CatalogError {
    /// The document is not well-formed JSON; carries the parser's message.
    Parse(String),
    /// The top-level value is not an array of records.
    Structure,
    /// A ranked record is missing a required field or holds one of the
    /// wrong shape; carries the record's keys other than the consumed ones.
    MalformedRecord(Vec<Vec<u8>>),
    /// A price text or rank scalar is not a number of the expected form.
    NumericFormat,
}

/// An error's mathematical value.
pub enum CatalogErrorV {
    Parse,
    Structure,
    MalformedRecord(Seq<Seq<u8>>),
    NumericFormat,
}

pub open spec fn err_view(e: CatalogError) -> CatalogErrorV {
    match e {
        CatalogError::Parse(_) => CatalogErrorV::Parse,
        CatalogError::Structure => CatalogErrorV::Structure,
        CatalogError::MalformedRecord(ks) => CatalogErrorV::MalformedRecord(byte_views(ks@)),
        CatalogError::NumericFormat => CatalogErrorV::NumericFormat,
    }
}

/// The bytes of the key `name`.
pub open spec fn name_key() -> Seq<u8> {
    seq![110u8, 97u8, 109u8, 101u8]
}

/// The bytes of the key `type_line`.
pub open spec fn type_line_key() -> Seq<u8> {
    seq![116u8, 121u8, 112u8, 101u8, 95u8, 108u8, 105u8, 110u8, 101u8]
}

/// The bytes of the key `prices`.
pub open spec fn prices_key() -> Seq<u8> {
    seq![112u8, 114u8, 105u8, 99u8, 101u8, 115u8]
}

/// The bytes of the key `edhrec_rank`.
pub open spec fn rank_key() -> Seq<u8> {
    seq![101u8, 100u8, 104u8, 114u8, 101u8, 99u8, 95u8, 114u8, 97u8, 110u8, 107u8]
}

/// The bytes of the key `usd`.
pub open spec fn usd_key() -> Seq<u8> {
    seq![117u8, 115u8, 100u8]
}

/// The position of the first entry holding `key`, or -1.
pub open spec fn key_index(es: Seq<(Seq<u8>, JTree)>, key: Seq<u8>) -> int
    decreases es.len(),
{
    if es.len() == 0 {
        -1
    } else if es[0].0 == key {
        0
    } else {
        let r = key_index(es.drop_first(), key);
        if r < 0 {
            -1
        } else {
            r + 1
        }
    }
}

/// The value under `key`, reading the first entry holding it.
pub open spec fn key_lookup(es: Seq<(Seq<u8>, JTree)>, key: Seq<u8>) -> Option<JTree> {
    let i = key_index(es, key);
    if i < 0 {
        None
    } else {
        Some(es[i].1)
    }
}

proof fn lemma_key_index(es: Seq<(Seq<u8>, JTree)>, key: Seq<u8>)
    ensures
        -1 <= key_index(es, key) < es.len(),
        key_index(es, key) >= 0 ==> es[key_index(es, key)].0 == key && (forall|j: int|
            0 <= j < key_index(es, key) ==> (#[trigger] es[j]).0 != key),
        key_index(es, key) == -1 ==> forall|j: int|
            0 <= j < es.len() ==> (#[trigger] es[j]).0 != key,
    decreases es.len(),
{
    if es.len() > 0 && es[0].0 != key {
        lemma_key_index(es.drop_first(), key);
        assert(forall|j: int|
            1 <= j < es.len() ==> (#[trigger] es[j]) == es.drop_first()[j - 1]);
    }
}

/// One consumed by the extractor.
pub open spec fn is_consumed_key(k: Seq<u8>) -> bool {
    k == name_key() || k == type_line_key() || k == prices_key() || k == rank_key()
}

/// A record's keys other than the consumed ones, in order: what a
/// malformed-record error reports.
pub open spec fn residual_keys(es: Seq<(Seq<u8>, JTree)>) -> Seq<Seq<u8>>
    decreases es.len(),
{
    if es.len() == 0 {
        Seq::empty()
    } else {
        let pre = residual_keys(es.drop_last());
        if is_consumed_key(es.last().0) {
            pre
        } else {
            pre.push(es.last().0)
        }
    }
}

/// What one record of the listing yields: a card, a silent skip, or a fatal
/// error.
pub enum RowOutcome {
    Skip,
    Keep(CardV),
    Fail(CatalogErrorV),
}

/// The extraction rule for one record.
pub open spec fn row_outcome(t: JTree) -> RowOutcome {
    if !(t is Obj) {
        RowOutcome::Skip
    } else {
        let es = t->Obj_0;
        if key_lookup(es, rank_key()) is None {
            RowOutcome::Skip
        } else if key_lookup(es, name_key()) is None || key_lookup(es, type_line_key()) is None
            || key_lookup(es, prices_key()) is None {
            RowOutcome::Fail(CatalogErrorV::MalformedRecord(residual_keys(es)))
        } else {
            let name_t = key_lookup(es, name_key())->Some_0;
            let tl_t = key_lookup(es, type_line_key())->Some_0;
            let rank_t = key_lookup(es, rank_key())->Some_0;
            let prices_t = key_lookup(es, prices_key())->Some_0;
            if !(name_t is Text) || !(tl_t is Text) || !(rank_t is Num) || !(prices_t is Obj) {
                RowOutcome::Fail(CatalogErrorV::MalformedRecord(residual_keys(es)))
            } else {
                match uint_of_parts(rank_t->Num_0, rank_t->Num_1, rank_t->Num_2) {
                    Some(rv) => if rv <= u64::MAX {
                        row_price_outcome(es, name_t->Text_0, tl_t->Text_0, rv as u64)
                    } else {
                        RowOutcome::Fail(CatalogErrorV::NumericFormat)
                    },
                    None => RowOutcome::Fail(CatalogErrorV::NumericFormat),
                }
            }
        }
    }
}

/// The price rule for one ranked record whose shape checks passed.
pub open spec fn row_price_outcome(
    es: Seq<(Seq<u8>, JTree)>,
    name: Seq<u8>,
    type_line: Seq<u8>,
    rank: u64,
) -> RowOutcome {
    let pes = key_lookup(es, prices_key())->Some_0->Obj_0;
    match key_lookup(pes, usd_key()) {
        None => RowOutcome::Skip,
        Some(u) => if u is Null {
            RowOutcome::Skip
        } else if !(u is Text) {
            RowOutcome::Fail(CatalogErrorV::MalformedRecord(residual_keys(es)))
        } else {
            match spec_parse_price(u->Text_0) {
                Some(p) => RowOutcome::Keep(
                    CardV { name, type_line, price: p, popularity_rank: rank },
                ),
                None => RowOutcome::Fail(CatalogErrorV::NumericFormat),
            }
        },
    }
}

/// The cards the whole listing yields, in source order, or its first fatal
/// error.
pub open spec fn extract_rows(rows: Seq<JTree>) -> Result<Seq<CardV>, CatalogErrorV>
    decreases rows.len(),
{
    if rows.len() == 0 {
        Ok(Seq::empty())
    } else {
        match extract_rows(rows.drop_last()) {
            Err(e) => Err(e),
            Ok(cs) => match row_outcome(rows.last()) {
                RowOutcome::Fail(e) => Err(e),
                RowOutcome::Skip => Ok(cs),
                RowOutcome::Keep(c) => Ok(cs.push(c)),
            },
        }
    }
}

/// What extraction yields on a whole document.
pub open spec fn extract_tree(t: JTree) -> Result<Seq<CardV>, CatalogErrorV> {
    if t is Arr {
        extract_rows(t->Arr_0)
    } else {
        Err(CatalogErrorV::Structure)
    }
}

/// The key `name`, as a value.
fn name_key_vec() -> (r: Vec<u8>)
    ensures
        r@ == name_key(),
{
    let mut r: Vec<u8> = Vec::new();
    r.push(110u8);
    r.push(97u8);
    r.push(109u8);
    r.push(101u8);
    proof {
        assert(r@ =~= name_key());
    }
    r
}

/// The key `type_line`, as a value.
fn type_line_key_vec() -> (r: Vec<u8>)
    ensures
        r@ == type_line_key(),
{
    let mut r: Vec<u8> = Vec::new();
    r.push(116u8);
    r.push(121u8);
    r.push(112u8);
    r.push(101u8);
    r.push(95u8);
    r.push(108u8);
    r.push(105u8);
    r.push(110u8);
    r.push(101u8);
    proof {
        assert(r@ =~= type_line_key());
    }
    r
}

/// The key `prices`, as a value.
fn prices_key_vec() -> (r: Vec<u8>)
    ensures
        r@ == prices_key(),
{
    let mut r: Vec<u8> = Vec::new();
    r.push(112u8);
    r.push(114u8);
    r.push(105u8);
    r.push(99u8);
    r.push(101u8);
    r.push(115u8);
    proof {
        assert(r@ =~= prices_key());
    }
    r
}

/// The key `edhrec_rank`, as a value.
fn rank_key_vec() -> (r: Vec<u8>)
    ensures
        r@ == rank_key(),
{
    let mut r: Vec<u8> = Vec::new();
    r.push(101u8);
    r.push(100u8);
    r.push(104u8);
    r.push(114u8);
    r.push(101u8);
    r.push(99u8);
    r.push(95u8);
    r.push(114u8);
    r.push(97u8);
    r.push(110u8);
    r.push(107u8);
    proof {
        assert(r@ =~= rank_key());
    }
    r
}

/// The key `usd`, as a value.
fn usd_key_vec() -> (r: Vec<u8>)
    ensures
        r@ == usd_key(),
{
    let mut r: Vec<u8> = Vec::new();
    r.push(117u8);
    r.push(115u8);
    r.push(100u8);
    proof {
        assert(r@ =~= usd_key());
    }
    r
}

/// Finds the value under `key` among an object's entries.
#[verifier::loop_isolation(false)]
fn find_key<'a>(
    ents: &Vec<(Vec<u8>, &'a json::JsonValue)>,
    key: &Vec<u8>,
    Ghost(es): Ghost<Seq<(Seq<u8>, JTree)>>,
) -> (r: Option<&'a json::JsonValue>)
    requires
        ents@.len() == es.len(),
        forall|i: int|
            0 <= i < es.len() ==> (#[trigger] ents@[i]).0@ == es[i].0 && jmodel(*ents@[i].1)
                == es[i].1,
    ensures
        match key_lookup(es, key@) {
            None => r is None,
            Some(t) => r matches Some(v) && jmodel(*v) == t,
        },
{
    proof {
        lemma_key_index(es, key@);
    }
    let mut i: usize = 0;
    while i < ents.len()
        invariant
            0 <= i <= es.len(),
            forall|j: int| 0 <= j < i ==> (#[trigger] es[j]).0 != key@,
        decreases es.len() - i,
    {
        if bytes_eq(&ents[i].0, key) {
            return Some(ents[i].1);
        }
        i = i + 1;
    }
    None
}

/// The record's keys besides the consumed ones.
#[verifier::loop_isolation(false)]
fn residual_keys_exec(
    ents: &Vec<(Vec<u8>, &json::JsonValue)>,
    Ghost(es): Ghost<Seq<(Seq<u8>, JTree)>>,
) -> (r: Vec<Vec<u8>>)
    requires
        ents@.len() == es.len(),
        forall|i: int| 0 <= i < es.len() ==> (#[trigger] ents@[i]).0@ == es[i].0,
    ensures
        byte_views(r@) == residual_keys(es),
{
    let name_k = name_key_vec();
    let tl_k = type_line_key_vec();
    let prices_k = prices_key_vec();
    let rank_k = rank_key_vec();
    let mut r: Vec<Vec<u8>> = Vec::new();
    let mut i: usize = 0;
    while i < ents.len()
        invariant
            0 <= i <= es.len(),
            name_k@ == name_key(),
            tl_k@ == type_line_key(),
            prices_k@ == prices_key(),
            rank_k@ == rank_key(),
            byte_views(r@) == residual_keys(es.take(i as int)),
        decreases es.len() - i,
    {
        proof {
            assert(es.take(i + 1).drop_last() =~= es.take(i as int));
        }
        let consumed = bytes_eq(&ents[i].0, &name_k) || bytes_eq(&ents[i].0, &tl_k) || bytes_eq(
            &ents[i].0,
            &prices_k,
        ) || bytes_eq(&ents[i].0, &rank_k);
        if !consumed {
            let k = copy_bytes(&ents[i].0);
            r.push(k);
            proof {
                assert(byte_views(r@) =~= residual_keys(es.take(i + 1)));
            }
        }
        i = i + 1;
    }
    proof {
        assert(es.take(es.len() as int) =~= es);
    }
    r
}

/// What one record yields, as a value.
pub enum RowResult {
    Skip,
    Keep(Card),
    Fail(CatalogError),
}

/// Extracts one record of the listing.
fn extract_row(e: &json::JsonValue) -> (r: RowResult)
    ensures
        match row_outcome(jmodel(*e)) {
            RowOutcome::Skip => r is Skip,
            RowOutcome::Keep(c) => r matches RowResult::Keep(card) && card@ == c && c.wf(),
            RowOutcome::Fail(ev) => r matches RowResult::Fail(err) && err_view(err) == ev,
        },
{
    if !is_object(e) {
        return RowResult::Skip;
    }
    let ghost es = jmodel(*e)->Obj_0;
    let ents = object_entries(e);
    let rank_k = rank_key_vec();
    let rank_v = find_key(&ents, &rank_k, Ghost(es));
    if rank_v.is_none() {
        return RowResult::Skip;
    }
    let name_k = name_key_vec();
    let tl_k = type_line_key_vec();
    let prices_k = prices_key_vec();
    let name_v = find_key(&ents, &name_k, Ghost(es));
    let tl_v = find_key(&ents, &tl_k, Ghost(es));
    let prices_v = find_key(&ents, &prices_k, Ghost(es));
    if name_v.is_none() || tl_v.is_none() || prices_v.is_none() {
        return RowResult::Fail(
            CatalogError::MalformedRecord(residual_keys_exec(&ents, Ghost(es))),
        );
    }
    let name_j = name_v.unwrap();
    let tl_j = tl_v.unwrap();
    let rank_j = rank_v.unwrap();
    let prices_j = prices_v.unwrap();
    let name_t = as_text(name_j);
    let tl_t = as_text(tl_j);
    let rank_p = number_parts(rank_j);
    if name_t.is_none() || tl_t.is_none() || rank_p.is_none() || !is_object(prices_j) {
        return RowResult::Fail(
            CatalogError::MalformedRecord(residual_keys_exec(&ents, Ghost(es))),
        );
    }
    let (positive, mantissa, exponent) = rank_p.unwrap();
    let rank = match crate::digits::parts_to_u64(positive, mantissa, exponent) {
        Some(rank) => rank,
        None => {
            return RowResult::Fail(CatalogError::NumericFormat);
        },
    };
    let ghost pes = jmodel(*prices_j)->Obj_0;
    let pents = object_entries(prices_j);
    let usd_k = usd_key_vec();
    let usd_v = find_key(&pents, &usd_k, Ghost(pes));
    let usd_j = match usd_v {
        None => {
            return RowResult::Skip;
        },
        Some(usd_j) => usd_j,
    };
    if is_null(usd_j) {
        return RowResult::Skip;
    }
    let price_t = match as_text(usd_j) {
        None => {
            return RowResult::Fail(
                CatalogError::MalformedRecord(residual_keys_exec(&ents, Ghost(es))),
            );
        },
        Some(price_t) => price_t,
    };
    let price = match parse_price(&price_t) {
        None => {
            return RowResult::Fail(CatalogError::NumericFormat);
        },
        Some(price) => price,
    };
    RowResult::Keep(
        Card { name: name_t.unwrap(), type_line: tl_t.unwrap(), price, popularity_rank: rank },
    )
}

/// A skipped record — one without a rank, or without a current price —
/// leaves the extraction's outcome exactly as if it were not in the listing
/// at all: absent from the output, and causing no error.
pub proof fn lemma_skipped_row_removable(rows: Seq<JTree>, i: int)
    requires
        0 <= i < rows.len(),
        row_outcome(rows[i]) is Skip,
    ensures
        extract_rows(rows) == extract_rows(rows.remove(i)),
    decreases rows.len(),
{
    if i == rows.len() - 1 {
        assert(rows.remove(i) =~= rows.drop_last());
    } else {
        assert(rows.remove(i).drop_last() =~= rows.drop_last().remove(i));
        assert(rows.remove(i).last() == rows.last());
        lemma_skipped_row_removable(rows.drop_last(), i);
    }
}

/// A record with a fatal flaw anywhere in the listing aborts the whole run:
/// extraction yields an error, never partial output.
pub proof fn lemma_failing_row_aborts(rows: Seq<JTree>, i: int)
    requires
        0 <= i < rows.len(),
        row_outcome(rows[i]) is Fail,
    ensures
        extract_rows(rows) is Err,
{
    if extract_rows(rows.take(i)) is Err {
        lemma_extract_rows_err_persists(rows, i);
    } else {
        lemma_extract_rows_snoc(rows, i);
        lemma_extract_rows_err_persists(rows, i + 1);
    }
}

/// A fatal error in a prefix of the listing is the whole listing's result.
proof fn lemma_extract_rows_err_persists(rows: Seq<JTree>, i: int)
    requires
        0 <= i <= rows.len(),
        extract_rows(rows.take(i)) is Err,
    ensures
        extract_rows(rows) == extract_rows(rows.take(i)),
    decreases rows.len() - i,
{
    if i < rows.len() {
        lemma_extract_rows_snoc(rows, i);
        lemma_extract_rows_err_persists(rows, i + 1);
    } else {
        assert(rows.take(i) =~= rows);
    }
}

proof fn lemma_extract_rows_snoc(rows: Seq<JTree>, i: int)
    requires
        0 <= i < rows.len(),
    ensures
        extract_rows(rows.take(i + 1)) == (match extract_rows(rows.take(i)) {
            Err(e) => Err::<Seq<CardV>, CatalogErrorV>(e),
            Ok(cs) => match row_outcome(rows[i]) {
                RowOutcome::Fail(e) => Err::<Seq<CardV>, CatalogErrorV>(e),
                RowOutcome::Skip => Ok::<Seq<CardV>, CatalogErrorV>(cs),
                RowOutcome::Keep(c) => Ok::<Seq<CardV>, CatalogErrorV>(cs.push(c)),
            },
        }),
{
    assert(rows.take(i + 1).drop_last() =~= rows.take(i));
    assert(rows.take(i + 1).last() == rows[i]);
}

/// Extracts the surviving cards of a parsed document, in source order, or
/// reports its first fatal error.
#[verifier::loop_isolation(false)]
pub fn extract(doc: &json::JsonValue) -> (r: Result<Vec<Card>, CatalogError>)
    ensures
        match extract_tree(jmodel(*doc)) {
            Ok(cs) => r matches Ok(v) && card_views(v@) == cs && all_wf(cs),
            Err(ev) => r matches Err(e) && err_view(e) == ev,
        },
{
    if !is_array(doc) {
        return Err(CatalogError::Structure);
    }
    let ghost rows = jmodel(*doc)->Arr_0;
    let elems = array_elements(doc);
    let mut out: Vec<Card> = Vec::new();
    proof {
        assert(rows.take(0) =~= Seq::<JTree>::empty());
        assert(card_views(out@) =~= Seq::<CardV>::empty());
    }
    let mut i: usize = 0;
    while i < elems.len()
        invariant
            0 <= i <= rows.len(),
            extract_rows(rows.take(i as int)) == Ok::<Seq<CardV>, CatalogErrorV>(
                card_views(out@),
            ),
            all_wf(card_views(out@)),
        decreases rows.len() - i,
    {
        proof {
            lemma_extract_rows_snoc(rows, i as int);
        }
        match extract_row(elems[i]) {
            RowResult::Skip => {},
            RowResult::Keep(card) => {
                let ghost prev = out@;
                let ghost cv = card@;
                out.push(card);
                proof {
                    assert(card_views(out@) =~= card_views(prev).push(cv));
                }
            },
            RowResult::Fail(err) => {
                proof {
                    lemma_extract_rows_err_persists(rows, i + 1);
                }
                return Err(err);
            },
        }
        i = i + 1;
    }
    proof {
        assert(rows.take(rows.len() as int) =~= rows);
    }
    Ok(out)
}

/// Parses a document text and extracts its cards: the whole front half of
/// the pipeline.
pub fn cards_from_text(text: &str) -> (r: Result<Vec<Card>, CatalogError>)
    ensures
        tree_of(text@) is None ==> (r matches Err(e) && e is Parse),
        tree_of(text@) matches Some(t) ==> match extract_tree(t) {
            Ok(cs) => r matches Ok(v) && card_views(v@) == cs && all_wf(cs),
            Err(ev) => r matches Err(e) && err_view(e) == ev,
        },
{
    match parse_document(text) {
        Err(msg) => Err(CatalogError::Parse(msg)),
        Ok(v) => extract(&v),
    }
}

} // verus!
