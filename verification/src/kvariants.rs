//! The Z-variants of CJK ideographs (kVariants): which ideograph stands for which, and why.
use std::collections::HashMap;

use vstd::prelude::*;

use crate::text::{chars_of, str_eq};

verus! {

broadcast use vstd::std_specs::hash::group_hash_axioms;

/// Why an ideograph stands for another one.
#[derive(Debug, Clone, Copy, PartialEq, Eq, Structural)]
pub enum KVariantClass {
    Wrong,
    SementicVariant,
    Simplified,
    Old,
    Equal,
}

/// An ideograph (`source_ideograph`) and the ideograph that stands for it.
#[derive(Debug, Clone, Copy, PartialEq, Eq, Structural)]
pub struct KVariant {
    pub source_ideograph: char,
    pub classification: KVariantClass,
    pub destination_ideograph: char,
}

/// A row of the kVariants table: the source ideograph, the relation, the destination
/// ideograph; each ideograph is the first character of its field.
pub struct TsvRow {
    pub lhs: String,
    pub relation: String,
    pub rhs: String,
}

/// The kVariants, by the code point of their source ideograph.
pub type KVariants = HashMap<u32, KVariant>;

/// The classification that a relation of the table names: "wrong!", "sem", "simp", "old" and
/// "=".
pub open spec fn spec_relation_class(relation: Seq<char>) -> Option<KVariantClass> {
    if relation == seq!['w', 'r', 'o', 'n', 'g', '!'] {
        Some(KVariantClass::Wrong)
    } else if relation == seq!['s', 'e', 'm'] {
        Some(KVariantClass::SementicVariant)
    } else if relation == seq!['s', 'i', 'm', 'p'] {
        Some(KVariantClass::Simplified)
    } else if relation == seq!['o', 'l', 'd'] {
        Some(KVariantClass::Old)
    } else if relation == seq!['='] {
        Some(KVariantClass::Equal)
    } else {
        None
    }
}

/// The classification that a relation of the table names, `None` for any other relation.
pub fn relation_class(relation: &str) -> (class: Option<KVariantClass>)
    ensures
        class == spec_relation_class(relation@),
{
    let v = chars_of(relation);
    let wrong = ['w', 'r', 'o', 'n', 'g', '!'];
    let sem = ['s', 'e', 'm'];
    let simp = ['s', 'i', 'm', 'p'];
    let old = ['o', 'l', 'd'];
    let equal = ['='];
    assert(wrong@ =~= seq!['w', 'r', 'o', 'n', 'g', '!']);
    assert(sem@ =~= seq!['s', 'e', 'm']);
    assert(simp@ =~= seq!['s', 'i', 'm', 'p']);
    assert(old@ =~= seq!['o', 'l', 'd']);
    assert(equal@ =~= seq!['=']);
    if crate::text::chars_eq(v.as_slice(), &wrong) {
        Some(KVariantClass::Wrong)
    } else if crate::text::chars_eq(v.as_slice(), &sem) {
        Some(KVariantClass::SementicVariant)
    } else if crate::text::chars_eq(v.as_slice(), &simp) {
        Some(KVariantClass::Simplified)
    } else if crate::text::chars_eq(v.as_slice(), &old) {
        Some(KVariantClass::Old)
    } else if crate::text::chars_eq(v.as_slice(), &equal) {
        Some(KVariantClass::Equal)
    } else {
        None
    }
}

/// Whether every row of the table has a source and a destination ideograph.
pub open spec fn rows_well_formed(rows: Seq<TsvRow>) -> bool {
    forall|i: int| 0 <= i < rows.len() ==> #[trigger] rows[i].lhs@.len() > 0 && rows[i].rhs@.len() > 0
}

/// The fields of a row: source, relation, destination.
pub open spec fn row_view(row: TsvRow) -> (Seq<char>, Seq<char>, Seq<char>) {
    (row.lhs@, row.relation@, row.rhs@)
}

/// The kVariants of the rows of a table, given by their fields: each row with a known relation
/// maps its source ideograph to its variant, a later row replacing an earlier one for the same
/// source.
pub open spec fn spec_kvariants_of(rows: Seq<(Seq<char>, Seq<char>, Seq<char>)>) -> Map<u32, KVariant>
    decreases rows.len(),
{
    if rows.len() == 0 {
        Map::empty()
    } else {
        let before = spec_kvariants_of(rows.drop_last());
        let row = rows.last();
        match spec_relation_class(row.1) {
            Some(class) => before.insert(
                row.0[0] as u32,
                KVariant { source_ideograph: row.0[0], classification: class, destination_ideograph: row.2[0] },
            ),
            None => before,
        }
    }
}

/// The kVariants of the rows of a table.
pub open spec fn spec_kvariants(rows: Seq<TsvRow>) -> Map<u32, KVariant> {
    spec_kvariants_of(rows.map_values(|r: TsvRow| row_view(r)))
}

/// The records of a table as rows of three fields.
pub open spec fn record_rows(records: Seq<Seq<Seq<char>>>) -> Seq<(Seq<char>, Seq<char>, Seq<char>)> {
    records.map_values(|r: Seq<Seq<char>>| (r[0], r[1], r[2]))
}

/// The first character of a text that is not empty.
fn first_char(s: &str) -> (c: char)
    requires
        s@.len() > 0,
    ensures
        c == s@[0],
{
    let v = chars_of(s);
    v[0]
}

/// Builds the kVariants from the rows of the table.
pub fn kvariants_from_rows(rows: &[TsvRow]) -> (map: KVariants)
    requires
        rows_well_formed(rows@),
    ensures
        map@ == spec_kvariants(rows@),
{
    let mut map: KVariants = HashMap::new();
    let mut i: usize = 0;
    while i < rows.len()
        invariant
            i <= rows@.len(),
            rows_well_formed(rows@),
            map@ == spec_kvariants(rows@.take(i as int)),
        decreases rows@.len() - i,
    {
        let row = &rows[i];
        assert(rows@[i as int].lhs@.len() > 0 && rows@[i as int].rhs@.len() > 0);
        let rhs = first_char(row.rhs.as_str());
        let lhs = first_char(row.lhs.as_str());
        assert(rows@.take(i + 1).drop_last() =~= rows@.take(i as int));
        assert(rows@.take(i + 1).map_values(|r: TsvRow| row_view(r)).drop_last() =~= rows@.take(
            i as int,
        ).map_values(|r: TsvRow| row_view(r)));
        match relation_class(row.relation.as_str()) {
            Some(classification) => {
                map.insert(
                    lhs as u32,
                    KVariant { source_ideograph: lhs, classification, destination_ideograph: rhs },
                );
            },
            None => {},
        }
        i += 1;
    }
    assert(rows@.take(rows@.len() as int) =~= rows@);
    map
}

/// What the `csv` reader reads from a text without headers, each record as its fields; `None`
/// when the text is not valid CSV.
pub uninterp spec fn csv_records(text: Seq<char>) -> Option<Seq<Seq<Seq<char>>>>;

/// Reads the records of a CSV text without headers with the `csv` crate (`records()`); `None`
/// when a record fails to read.
#[verifier::external_body]
fn read_csv_records(text: &str) -> (records: Option<Vec<Vec<String>>>)
    ensures
        records matches Some(r) ==> csv_records(text@) matches Some(spec_r) && spec_r.len() == r@.len()
            && forall|i: int| 0 <= i < r@.len() ==> #[trigger] r@[i]@.len() == spec_r[i].len() && forall|j: int|
                0 <= j < r@[i]@.len() ==> r@[i]@[j]@ == spec_r[i][j],
        records is None ==> csv_records(text@) is None,
{
    let mut reader = csv::ReaderBuilder::new().has_headers(false).from_reader(text.as_bytes());
    reader.records().map(|r| r.ok().map(|r| r.iter().map(|f| f.to_string()).collect())).collect()
}

/// Whether the records of a table are rows: three fields each, with a source and a destination
/// ideograph.
pub open spec fn records_are_rows(records: Seq<Seq<Seq<char>>>) -> bool {
    forall|i: int|
        #![trigger records[i]]
        0 <= i < records.len() ==> records[i].len() == 3 && records[i][0].len() > 0
            && records[i][2].len() > 0
}

/// Reads the kVariants from the text of the table (`lhs,relation,rhs` records); `None` when the
/// text is not valid CSV or a record is not such a row.
pub fn load_kvariants(text: &str) -> (map: Option<KVariants>)
    ensures
        map is Some <==> (csv_records(text@) matches Some(r) && records_are_rows(r)),
        map matches Some(m) ==> m@ == spec_kvariants_of(record_rows(csv_records(text@).unwrap())),
{
    let records = match read_csv_records(text) {
        Some(records) => records,
        None => return None,
    };
    let ghost spec_records = csv_records(text@).unwrap();
    assert(csv_records(text@) == Some(spec_records));
    let mut rows: Vec<TsvRow> = Vec::new();
    let mut i: usize = 0;
    while i < records.len()
        invariant
            i <= records@.len(),
            csv_records(text@) == Some(spec_records),
            spec_records.len() == records@.len(),
            forall|k: int| 0 <= k < records@.len() ==> #[trigger] records@[k]@.len() == spec_records[k].len() && forall|j: int|
                0 <= j < records@[k]@.len() ==> records@[k]@[j]@ == spec_records[k][j],
            rows@.len() == i,
            rows_well_formed(rows@),
            rows@.map_values(|r: TsvRow| row_view(r)) == record_rows(spec_records).take(i as int),
            forall|k: int|
                #![trigger spec_records[k]]
                0 <= k < i ==> spec_records[k].len() == 3 && spec_records[k][0].len() > 0
                    && spec_records[k][2].len() > 0,
        decreases records@.len() - i,
    {
        let record = &records[i];
        assert(records@[i as int]@.len() == spec_records[i as int].len());
        if record.len() != 3 {
            assert(!records_are_rows(spec_records));
            return None;
        }
        assert(record@[0]@ == spec_records[i as int][0]);
        assert(record@[2]@ == spec_records[i as int][2]);
        if record[0].as_str().is_empty() || record[2].as_str().is_empty() {
            assert(!records_are_rows(spec_records));
            return None;
        }
        assert(spec_records[i as int].len() == 3 && spec_records[i as int][0].len() > 0
            && spec_records[i as int][2].len() > 0);
        assert(record@[1]@ == spec_records[i as int][1]);
        let ghost before = rows@;
        rows.push(
            TsvRow {
                lhs: record[0].clone(),
                relation: record[1].clone(),
                rhs: record[2].clone(),
            },
        );
        assert(rows@.map_values(|r: TsvRow| row_view(r)) =~= record_rows(spec_records).take(i + 1));
        i += 1;
    }
    assert(records_are_rows(spec_records));
    assert(record_rows(spec_records).take(i as int) =~= record_rows(spec_records));
    Some(kvariants_from_rows(rows.as_slice()))
}

/// The variant of an ideograph, if the table holds one.
pub fn kvariant_of(map: &KVariants, c: char) -> (v: Option<KVariant>)
    ensures
        v == (if map@.contains_key(c as u32) {
            Some(map@[c as u32])
        } else {
            None
        }),
{
    match map.get(&(c as u32)) {
        Some(v) => Some(*v),
        None => None,
    }
}

} // verus!
