use vstd::prelude::*;
use vstd::string::*;

use crate::utils::{decimal, spec_decimal, str_eq};

verus! {

/// A JSON number as the parser holds it: a non-negative integer, a negative
/// integer, or a finite double given by its IEEE 754 bit pattern.
#[derive(Debug, Clone, Copy, PartialEq, Eq)]
pub enum JsonNumber {
    PosInt(u64),
    NegInt(i64),
    Float(u64),
}

/// A JSON document. An object lists its members in the order in which its
/// map iterates them.
#[derive(Debug)]
pub enum JsonValue {
    Null,
    Bool(bool),
    Number(JsonNumber),
    String(String),
    Array(Vec<JsonValue>),
    Object(Vec<(String, JsonValue)>),
}

/// The bits of a double other than its sign.
pub const MAGNITUDE_BITS: u64 = 0x7fff_ffff_ffff_ffff;

/// The exponent bits of a double.
pub const EXPONENT_BITS: u64 = 0x7ff0_0000_0000_0000;

/// The fraction bits of a double.
pub const FRACTION_BITS: u64 = 0x000f_ffff_ffff_ffff;

/// Whether the bit pattern is a NaN.
pub open spec fn is_nan_bits(b: u64) -> bool {
    b & EXPONENT_BITS == EXPONENT_BITS && b & FRACTION_BITS != 0
}

/// IEEE 754 equality of two doubles given by their bit patterns: the two
/// zeros are equal, a NaN equals nothing, and other values are equal when
/// their bits are.
pub open spec fn float_bits_eq(a: u64, b: u64) -> bool {
    ||| (a & MAGNITUDE_BITS == 0 && b & MAGNITUDE_BITS == 0)
    ||| (a == b && !is_nan_bits(a))
}

/// Equality of two JSON numbers: the same kind, and equal values.
pub open spec fn number_eq(a: JsonNumber, b: JsonNumber) -> bool {
    match (a, b) {
        (JsonNumber::PosInt(x), JsonNumber::PosInt(y)) => x == y,
        (JsonNumber::NegInt(x), JsonNumber::NegInt(y)) => x == y,
        (JsonNumber::Float(x), JsonNumber::Float(y)) => float_bits_eq(x, y),
        _ => false,
    }
}

/// Equality of two JSON values of which not both are objects and not both
/// are arrays: values of different kinds differ, and values of one kind are
/// compared by content.
pub open spec fn leaf_eq(a: JsonValue, b: JsonValue) -> bool {
    match (a, b) {
        (JsonValue::Null, JsonValue::Null) => true,
        (JsonValue::Bool(x), JsonValue::Bool(y)) => x == y,
        (JsonValue::Number(x), JsonValue::Number(y)) => number_eq(x, y),
        (JsonValue::String(x), JsonValue::String(y)) => x@ == y@,
        _ => false,
    }
}

/// The value of the first member of the object named `key`.
pub open spec fn member(entries: Seq<(String, JsonValue)>, key: Seq<char>) -> Option<JsonValue>
    decreases entries.len(),
{
    if entries.len() == 0 {
        None
    } else if entries[0].0@ == key {
        Some(entries[0].1)
    } else {
        member(entries.drop_first(), key)
    }
}

fn float_eq(a: u64, b: u64) -> (res: bool)
    ensures
        res == float_bits_eq(a, b),
{
    (a & MAGNITUDE_BITS == 0 && b & MAGNITUDE_BITS == 0) || (a == b && !(a & EXPONENT_BITS
        == EXPONENT_BITS && a & FRACTION_BITS != 0))
}

fn leaf_equal(a: &JsonValue, b: &JsonValue) -> (res: bool)
    ensures
        res == leaf_eq(*a, *b),
{
    match (a, b) {
        (JsonValue::Null, JsonValue::Null) => true,
        (JsonValue::Bool(x), JsonValue::Bool(y)) => *x == *y,
        (JsonValue::Number(x), JsonValue::Number(y)) => match (x, y) {
            (JsonNumber::PosInt(p), JsonNumber::PosInt(q)) => *p == *q,
            (JsonNumber::NegInt(p), JsonNumber::NegInt(q)) => *p == *q,
            (JsonNumber::Float(p), JsonNumber::Float(q)) => float_eq(*p, *q),
            _ => false,
        },
        (JsonValue::String(x), JsonValue::String(y)) => str_eq(x.as_str(), y.as_str()),
        _ => false,
    }
}

/// Looks up the first member of the object named `key`.
pub fn get_member<'a>(entries: &'a Vec<(String, JsonValue)>, key: &str) -> (res: Option<&'a JsonValue>)
    ensures
        match res {
            Some(v) => member(entries@, key@) == Some(*v),
            None => member(entries@, key@) is None,
        },
{
    let mut i: usize = 0;
    assert(entries@.skip(0) =~= entries@);
    while i < entries.len()
        invariant
            i <= entries@.len(),
            member(entries@, key@) == member(entries@.skip(i as int), key@),
        decreases entries@.len() - i,
    {
        assert(entries@.skip(i as int).drop_first() =~= entries@.skip(i + 1));
        if str_eq(entries[i].0.as_str(), key) {
            return Some(&entries[i].1);
        }
        i = i + 1;
    }
    None
}

/// Where two documents first differ, geometric errors aside.
#[derive(Debug)]
pub enum JsonMismatch<'a> {
    /// A member of the expected object that the actual object lacks.
    MissingKey(String),
    /// A member of the actual object that the expected object lacks.
    UnexpectedKey(String),
    /// Two arrays of different lengths.
    ArrayLength { path: String, expected_len: usize, actual_len: usize },
    /// Two values that differ, not both objects and not both arrays.
    Value { path: String, expected: &'a JsonValue, actual: &'a JsonValue },
}

/// A `JsonMismatch` with its paths as character sequences.
pub enum MismatchView {
    MissingKey(Seq<char>),
    UnexpectedKey(Seq<char>),
    ArrayLength(Seq<char>, nat, nat),
    Value(Seq<char>, JsonValue, JsonValue),
}

impl<'a> JsonMismatch<'a> {
    pub open spec fn view(&self) -> MismatchView {
        match self {
            JsonMismatch::MissingKey(p) => MismatchView::MissingKey(p@),
            JsonMismatch::UnexpectedKey(p) => MismatchView::UnexpectedKey(p@),
            JsonMismatch::ArrayLength { path, expected_len, actual_len } => MismatchView::ArrayLength(
                path@,
                *expected_len as nat,
                *actual_len as nat,
            ),
            JsonMismatch::Value { path, expected, actual } => MismatchView::Value(
                path@,
                **expected,
                **actual,
            ),
        }
    }
}

/// The name of the member that the structural comparison leaves aside.
pub open spec fn geometric_error_key() -> Seq<char> {
    "geometricError"@
}

/// The JSON path of the member `key` of the value at `path`.
pub open spec fn member_path(path: Seq<char>, key: Seq<char>) -> Seq<char> {
    path + "."@ + key
}

/// The JSON path of the element `index` of the array at `path`.
pub open spec fn element_path(path: Seq<char>, index: nat) -> Seq<char> {
    path + "["@ + spec_decimal(index) + "]"@
}

/// The first difference between two documents, geometric errors aside:
/// objects are compared member by member in the expected object's order,
/// then checked for members that only the actual object has; arrays by
/// length, then element by element; other values by `leaf_eq`.
pub open spec fn structure_mismatch(e: JsonValue, a: JsonValue, path: Seq<char>) -> Option<MismatchView>
    decreases e,
{
    match e {
        JsonValue::Object(eo) => match a {
            JsonValue::Object(ao) => match members_mismatch(eo@, ao@, path) {
                Some(m) => Some(m),
                None => first_unexpected(ao@, eo@, path),
            },
            _ => if leaf_eq(e, a) { None } else { Some(MismatchView::Value(path, e, a)) },
        },
        JsonValue::Array(ea) => match a {
            JsonValue::Array(aa) => if ea@.len() != aa@.len() {
                Some(MismatchView::ArrayLength(path, ea@.len(), aa@.len()))
            } else {
                elements_mismatch(ea@, aa@, path)
            },
            _ => if leaf_eq(e, a) { None } else { Some(MismatchView::Value(path, e, a)) },
        },
        _ => if leaf_eq(e, a) { None } else { Some(MismatchView::Value(path, e, a)) },
    }
}

/// The first difference found by comparing the expected members `es`, in
/// order, with the actual object's members `ao`.
pub open spec fn members_mismatch(es: Seq<(String, JsonValue)>, ao: Seq<(String, JsonValue)>, path: Seq<char>) -> Option<MismatchView>
    decreases es,
{
    if es.len() == 0 {
        None
    } else {
        match members_mismatch(es.drop_last(), ao, path) {
            Some(m) => Some(m),
            None => member_mismatch(es.last(), ao, path),
        }
    }
}

/// The difference found by comparing one expected member with the actual
/// object's members.
pub open spec fn member_mismatch(entry: (String, JsonValue), ao: Seq<(String, JsonValue)>, path: Seq<char>) -> Option<MismatchView>
    decreases entry,
{
    if entry.0@ == geometric_error_key() {
        None
    } else {
        match member(ao, entry.0@) {
            None => Some(MismatchView::MissingKey(member_path(path, entry.0@))),
            Some(av) => structure_mismatch(entry.1, av, member_path(path, entry.0@)),
        }
    }
}

/// The first member of `ao`, in order, other than the geometric error, that
/// the expected members `eo` lack.
pub open spec fn first_unexpected(ao: Seq<(String, JsonValue)>, eo: Seq<(String, JsonValue)>, path: Seq<char>) -> Option<MismatchView>
    decreases ao.len(),
{
    if ao.len() == 0 {
        None
    } else {
        match first_unexpected(ao.drop_last(), eo, path) {
            Some(m) => Some(m),
            None => if ao.last().0@ != geometric_error_key() && member(eo, ao.last().0@) is None {
                Some(MismatchView::UnexpectedKey(member_path(path, ao.last().0@)))
            } else {
                None
            },
        }
    }
}

/// The first difference between the elements of two arrays, in order.
pub open spec fn elements_mismatch(ea: Seq<JsonValue>, aa: Seq<JsonValue>, path: Seq<char>) -> Option<MismatchView>
    decreases ea,
{
    if ea.len() == 0 {
        None
    } else {
        match elements_mismatch(ea.drop_last(), aa, path) {
            Some(m) => Some(m),
            None => structure_mismatch(
                ea.last(),
                aa[ea.len() - 1],
                element_path(path, (ea.len() - 1) as nat),
            ),
        }
    }
}

/// The JSON path of the member `key` of the value at `parent`: the two
/// joined by a dot.
pub fn format_json_path(parent: &str, key: &str) -> (res: String)
    ensures
        res@ == parent@ + "."@ + key@,
{
    let mut res = String::from_str(parent);
    res.append(".");
    res.append(key);
    res
}

/// The JSON path of the element `index` of the array at `parent`.
pub fn format_json_index_path(parent: &str, index: usize) -> (res: String)
    ensures
        res@ == parent@ + "["@ + spec_decimal(index as nat) + "]"@,
{
    let mut res = String::from_str(parent);
    res.append("[");
    let d = decimal(index as u64);
    res.append(d.as_str());
    res.append("]");
    res
}


proof fn lemma_members_prefix(es: Seq<(String, JsonValue)>, k: int, ao: Seq<(String, JsonValue)>, path: Seq<char>)
    requires
        0 <= k <= es.len(),
        members_mismatch(es.take(k), ao, path) is Some,
    ensures
        members_mismatch(es, ao, path) == members_mismatch(es.take(k), ao, path),
    decreases es.len(),
{
    if k < es.len() {
        assert(es.drop_last().take(k) =~= es.take(k));
        lemma_members_prefix(es.drop_last(), k, ao, path);
    } else {
        assert(es.take(k) =~= es);
    }
}

proof fn lemma_unexpected_prefix(ao: Seq<(String, JsonValue)>, k: int, eo: Seq<(String, JsonValue)>, path: Seq<char>)
    requires
        0 <= k <= ao.len(),
        first_unexpected(ao.take(k), eo, path) is Some,
    ensures
        first_unexpected(ao, eo, path) == first_unexpected(ao.take(k), eo, path),
    decreases ao.len(),
{
    if k < ao.len() {
        assert(ao.drop_last().take(k) =~= ao.take(k));
        lemma_unexpected_prefix(ao.drop_last(), k, eo, path);
    } else {
        assert(ao.take(k) =~= ao);
    }
}

proof fn lemma_elements_prefix(ea: Seq<JsonValue>, k: int, aa: Seq<JsonValue>, path: Seq<char>)
    requires
        0 <= k <= ea.len(),
        elements_mismatch(ea.take(k), aa, path) is Some,
    ensures
        elements_mismatch(ea, aa, path) == elements_mismatch(ea.take(k), aa, path),
    decreases ea.len(),
{
    if k < ea.len() {
        assert(ea.drop_last().take(k) =~= ea.take(k));
        lemma_elements_prefix(ea.drop_last(), k, aa, path);
    } else {
        assert(ea.take(k) =~= ea);
    }
}

fn is_geometric_error_key(key: &str) -> (res: bool)
    ensures
        res == (key@ == geometric_error_key()),
{
    str_eq(key, "geometricError")
}

/// Compares two documents, geometric errors aside, and reports their first
/// difference: objects member by member in the expected object's order,
/// then for members that only the actual object has; arrays by length, then
/// element by element; other values by kind and content.
pub fn compare_json_except_geometric_error<'a>(
    expected: &'a JsonValue,
    actual: &'a JsonValue,
    path: &str,
) -> (res: Result<(), JsonMismatch<'a>>)
    ensures
        match structure_mismatch(*expected, *actual, path@) {
            None => res is Ok,
            Some(m) => res matches Err(x) && x.view() == m,
        },
    decreases expected,
{
    match (expected, actual) {
        (JsonValue::Object(eo), JsonValue::Object(ao)) => {
            let mut i: usize = 0;
            while i < eo.len()
                invariant
                    *expected == JsonValue::Object(*eo),
                    *actual == JsonValue::Object(*ao),
                    i <= eo@.len(),
                    members_mismatch(eo@.take(i as int), ao@, path@) is None,
                decreases eo@.len() - i,
            {
                let entry = &eo[i];
                proof {
                    assert(eo@.take(i + 1).drop_last() =~= eo@.take(i as int));
                    assert(eo@.take(i + 1).last() == *entry);
                }
                if !is_geometric_error_key(entry.0.as_str()) {
                    let child_path = format_json_path(path, entry.0.as_str());
                    match get_member(ao, entry.0.as_str()) {
                        None => {
                            proof {
                                assert(member_mismatch(*entry, ao@, path@) == Some(
                                    MismatchView::MissingKey(child_path@),
                                ));
                                assert(members_mismatch(eo@.take(i + 1), ao@, path@) is Some);
                                lemma_members_prefix(eo@, i + 1, ao@, path@);
                            }
                            return Err(JsonMismatch::MissingKey(child_path));
                        },
                        Some(av) => {
                            proof {
                                assert(decreases_to!(*expected => *eo));
                                assert(decreases_to!(*eo => eo@));
                                assert(decreases_to!(eo@ => eo@[i as int]));
                                assert(decreases_to!(eo@[i as int] => eo@[i as int].1));
                            }
                            match compare_json_except_geometric_error(&entry.1, av, child_path.as_str()) {
                                Err(m) => {
                                    proof {
                                        lemma_members_prefix(eo@, i + 1, ao@, path@);
                                    }
                                    return Err(m);
                                },
                                Ok(()) => {},
                            }
                        },
                    }
                }
                i = i + 1;
            }
            proof {
                assert(eo@.take(eo@.len() as int) =~= eo@);
            }
            let mut j: usize = 0;
            while j < ao.len()
                invariant
                    *expected == JsonValue::Object(*eo),
                    *actual == JsonValue::Object(*ao),
                    members_mismatch(eo@, ao@, path@) is None,
                    j <= ao@.len(),
                    first_unexpected(ao@.take(j as int), eo@, path@) is None,
                decreases ao@.len() - j,
            {
                let entry = &ao[j];
                proof {
                    assert(ao@.take(j + 1).drop_last() =~= ao@.take(j as int));
                    assert(ao@.take(j + 1).last() == *entry);
                }
                if !is_geometric_error_key(entry.0.as_str()) {
                    if get_member(eo, entry.0.as_str()).is_none() {
                        proof {
                            lemma_unexpected_prefix(ao@, j + 1, eo@, path@);
                        }
                        return Err(JsonMismatch::UnexpectedKey(format_json_path(path, entry.0.as_str())));
                    }
                }
                j = j + 1;
            }
            proof {
                assert(ao@.take(ao@.len() as int) =~= ao@);
            }
            Ok(())
        },
        (JsonValue::Array(ea), JsonValue::Array(aa)) => {
            if ea.len() != aa.len() {
                return Err(
                    JsonMismatch::ArrayLength {
                        path: String::from_str(path),
                        expected_len: ea.len(),
                        actual_len: aa.len(),
                    },
                );
            }
            let mut i: usize = 0;
            while i < ea.len()
                invariant
                    *expected == JsonValue::Array(*ea),
                    *actual == JsonValue::Array(*aa),
                    ea@.len() == aa@.len(),
                    i <= ea@.len(),
                    elements_mismatch(ea@.take(i as int), aa@, path@) is None,
                decreases ea@.len() - i,
            {
                proof {
                    assert(ea@.take(i + 1).drop_last() =~= ea@.take(i as int));
                    assert(ea@.take(i + 1).last() == ea@[i as int]);
                    assert(decreases_to!(*expected => *ea));
                    assert(decreases_to!(*ea => ea@));
                    assert(decreases_to!(ea@ => ea@[i as int]));
                }
                let child_path = format_json_index_path(path, i);
                match compare_json_except_geometric_error(&ea[i], &aa[i], child_path.as_str()) {
                    Err(m) => {
                        proof {
                            assert(elements_mismatch(ea@.take(i + 1), aa@, path@) == structure_mismatch(
                                ea@[i as int],
                                aa@[i as int],
                                element_path(path@, i as nat),
                            ));
                            lemma_elements_prefix(ea@, i + 1, aa@, path@);
                        }
                        return Err(m);
                    },
                    Ok(()) => {},
                }
                i = i + 1;
            }
            proof {
                assert(ea@.take(ea@.len() as int) =~= ea@);
            }
            Ok(())
        },
        _ => {
            if leaf_equal(expected, actual) {
                Ok(())
            } else {
                Err(JsonMismatch::Value { path: String::from_str(path), expected, actual })
            }
        },
    }
}


/// One step of comparing two documents' geometric errors.
#[derive(Debug)]
pub enum GeometricErrorCheck<'a> {
    /// Both objects at `path` have a geometric error: the two values are to
    /// be compared.
    Compare { path: String, expected: &'a JsonValue, actual: &'a JsonValue },
    /// Only the expected object at the path has a geometric error.
    Missing(String),
    /// Only the actual object at the path has a geometric error.
    Unexpected(String),
}

/// A `GeometricErrorCheck` with its path as a character sequence.
pub enum CheckView {
    Compare(Seq<char>, JsonValue, JsonValue),
    Missing(Seq<char>),
    Unexpected(Seq<char>),
}

impl<'a> GeometricErrorCheck<'a> {
    pub open spec fn view(&self) -> CheckView {
        match self {
            GeometricErrorCheck::Compare { path, expected, actual } => CheckView::Compare(
                path@,
                **expected,
                **actual,
            ),
            GeometricErrorCheck::Missing(p) => CheckView::Missing(p@),
            GeometricErrorCheck::Unexpected(p) => CheckView::Unexpected(p@),
        }
    }
}

/// The views of a list of checks.
pub open spec fn checks_view<'a>(cs: Seq<GeometricErrorCheck<'a>>) -> Seq<CheckView> {
    cs.map_values(|c: GeometricErrorCheck<'a>| c.view())
}

/// Whether a list of checks ends the walk: its last check is a missing or
/// an unexpected geometric error.
pub open spec fn ends_walk(cs: Seq<CheckView>) -> bool {
    cs.len() > 0 && !(cs.last() is Compare)
}

/// The checks `first`, followed by `rest` unless `first` ends the walk.
pub open spec fn then_checks(first: Seq<CheckView>, rest: Seq<CheckView>) -> Seq<CheckView> {
    if ends_walk(first) {
        first
    } else {
        first + rest
    }
}

/// The check of the geometric errors of two objects' own members.
pub open spec fn own_check(eo: Seq<(String, JsonValue)>, ao: Seq<(String, JsonValue)>, path: Seq<char>) -> Seq<CheckView> {
    match (member(eo, geometric_error_key()), member(ao, geometric_error_key())) {
        (Some(x), Some(y)) => seq![CheckView::Compare(path, x, y)],
        (Some(_), None) => seq![CheckView::Missing(path)],
        (None, Some(_)) => seq![CheckView::Unexpected(path)],
        (None, None) => seq![],
    }
}

/// The walk over two documents' geometric errors, in order: an object's own
/// geometric error, then its other members that both objects have, in the
/// expected object's order; the elements of two arrays, as far as both
/// reach. The walk ends at the first missing or unexpected geometric error.
pub open spec fn geometric_error_checks(e: JsonValue, a: JsonValue, path: Seq<char>) -> Seq<CheckView>
    decreases e,
{
    match e {
        JsonValue::Object(eo) => match a {
            JsonValue::Object(ao) => then_checks(
                own_check(eo@, ao@, path),
                members_checks(eo@, ao@, path),
            ),
            _ => seq![],
        },
        JsonValue::Array(ea) => match a {
            JsonValue::Array(aa) => elements_checks(ea@, aa@, path),
            _ => seq![],
        },
        _ => seq![],
    }
}

/// The walk over the expected members `es`, in order.
pub open spec fn members_checks(es: Seq<(String, JsonValue)>, ao: Seq<(String, JsonValue)>, path: Seq<char>) -> Seq<CheckView>
    decreases es,
{
    if es.len() == 0 {
        seq![]
    } else {
        then_checks(members_checks(es.drop_last(), ao, path), member_checks(es.last(), ao, path))
    }
}

/// The walk into one expected member, when the actual object has it too.
pub open spec fn member_checks(entry: (String, JsonValue), ao: Seq<(String, JsonValue)>, path: Seq<char>) -> Seq<CheckView>
    decreases entry,
{
    if entry.0@ == geometric_error_key() {
        seq![]
    } else {
        match member(ao, entry.0@) {
            None => seq![],
            Some(av) => geometric_error_checks(entry.1, av, member_path(path, entry.0@)),
        }
    }
}

/// The walk over the elements of two arrays, as far as both reach.
pub open spec fn elements_checks(ea: Seq<JsonValue>, aa: Seq<JsonValue>, path: Seq<char>) -> Seq<CheckView>
    decreases ea,
{
    if ea.len() == 0 {
        seq![]
    } else {
        then_checks(
            elements_checks(ea.drop_last(), aa, path),
            if ea.len() - 1 < aa.len() {
                geometric_error_checks(
                    ea.last(),
                    aa[ea.len() - 1],
                    element_path(path, (ea.len() - 1) as nat),
                )
            } else {
                seq![]
            },
        )
    }
}

proof fn lemma_members_checks_prefix(es: Seq<(String, JsonValue)>, k: int, ao: Seq<(String, JsonValue)>, path: Seq<char>)
    requires
        0 <= k <= es.len(),
        ends_walk(members_checks(es.take(k), ao, path)),
    ensures
        members_checks(es, ao, path) == members_checks(es.take(k), ao, path),
    decreases es.len(),
{
    if k < es.len() {
        assert(es.drop_last().take(k) =~= es.take(k));
        lemma_members_checks_prefix(es.drop_last(), k, ao, path);
    } else {
        assert(es.take(k) =~= es);
    }
}

proof fn lemma_elements_checks_prefix(ea: Seq<JsonValue>, k: int, aa: Seq<JsonValue>, path: Seq<char>)
    requires
        0 <= k <= ea.len(),
        ends_walk(elements_checks(ea.take(k), aa, path)),
    ensures
        elements_checks(ea, aa, path) == elements_checks(ea.take(k), aa, path),
    decreases ea.len(),
{
    if k < ea.len() {
        assert(ea.drop_last().take(k) =~= ea.take(k));
        lemma_elements_checks_prefix(ea.drop_last(), k, aa, path);
    } else {
        assert(ea.take(k) =~= ea);
    }
}

fn ends_walk_exec<'a>(cs: &Vec<GeometricErrorCheck<'a>>) -> (res: bool)
    ensures
        res == ends_walk(checks_view(cs@)),
{
    if cs.len() == 0 {
        false
    } else {
        match &cs[cs.len() - 1] {
            GeometricErrorCheck::Compare { .. } => false,
            _ => true,
        }
    }
}

fn append_checks<'a>(out: &mut Vec<GeometricErrorCheck<'a>>, more: Vec<GeometricErrorCheck<'a>>)
    ensures
        checks_view(final(out)@) == checks_view(old(out)@) + checks_view(more@),
{
    let mut more = more;
    let ghost before = out@;
    let ghost added = more@;
    out.append(&mut more);
    proof {
        assert(out@ == before + added);
        assert(checks_view(before + added) =~= checks_view(before) + checks_view(added));
    }
}

/// Walks two documents' geometric errors, in order, and lists the checks
/// the walk meets: at each pair of objects, their own geometric errors (to
/// be compared when both have one; missing or unexpected when only one
/// does), then the members that both objects have, in the expected object's
/// order; at each pair of arrays, the elements as far as both reach. The
/// list ends at the first missing or unexpected geometric error. Comparing
/// the numbers of a `Compare` check is left to the caller.
pub fn compare_geometric_errors<'a>(
    expected: &'a JsonValue,
    actual: &'a JsonValue,
    path: &str,
) -> (res: Vec<GeometricErrorCheck<'a>>)
    ensures
        checks_view(res@) == geometric_error_checks(*expected, *actual, path@),
    decreases expected,
{
    let mut out: Vec<GeometricErrorCheck<'a>> = Vec::new();
    match (expected, actual) {
        (JsonValue::Object(eo), JsonValue::Object(ao)) => {
            let own_expected = get_member(eo, "geometricError");
            let own_actual = get_member(ao, "geometricError");
            proof {
                reveal_strlit("geometricError");
            }
            match (own_expected, own_actual) {
                (Some(x), Some(y)) => {
                    out.push(
                        GeometricErrorCheck::Compare {
                            path: String::from_str(path),
                            expected: x,
                            actual: y,
                        },
                    );
                },
                (Some(_), None) => {
                    out.push(GeometricErrorCheck::Missing(String::from_str(path)));
                    proof {
                        assert(checks_view(out@) =~= own_check(eo@, ao@, path@));
                    }
                    return out;
                },
                (None, Some(_)) => {
                    out.push(GeometricErrorCheck::Unexpected(String::from_str(path)));
                    proof {
                        assert(checks_view(out@) =~= own_check(eo@, ao@, path@));
                    }
                    return out;
                },
                (None, None) => {},
            }
            let ghost own = own_check(eo@, ao@, path@);
            assert(checks_view(out@) =~= own);
            assert(checks_view(out@) =~= own + members_checks(eo@.take(0), ao@, path@));
            let mut i: usize = 0;
            while i < eo.len()
                invariant
                    *expected == JsonValue::Object(*eo),
                    *actual == JsonValue::Object(*ao),
                    own == own_check(eo@, ao@, path@),
                    !ends_walk(own),
                    i <= eo@.len(),
                    checks_view(out@) == own + members_checks(eo@.take(i as int), ao@, path@),
                    !ends_walk(checks_view(out@)),
                decreases eo@.len() - i,
            {
                let entry = &eo[i];
                let ghost done = members_checks(eo@.take(i as int), ao@, path@);
                proof {
                    assert(eo@.take(i + 1).drop_last() =~= eo@.take(i as int));
                    assert(eo@.take(i + 1).last() == *entry);
                    if done.len() > 0 {
                        assert((own + done).last() == done.last());
                    }
                    assert(!ends_walk(done));
                }
                if !is_geometric_error_key(entry.0.as_str()) {
                    match get_member(ao, entry.0.as_str()) {
                        None => {},
                        Some(av) => {
                            let child_path = format_json_path(path, entry.0.as_str());
                            proof {
                                assert(decreases_to!(*expected => expected->Object_0));
                                assert(decreases_to!(*eo => eo@));
                                assert(decreases_to!(eo@ => eo@[i as int]));
                                assert(decreases_to!(eo@[i as int] => eo@[i as int].1));
                            }
                            let sub = compare_geometric_errors(&entry.1, av, child_path.as_str());
                            append_checks(&mut out, sub);
                        },
                    }
                }
                proof {
                    assert(members_checks(eo@.take(i + 1), ao@, path@) == done + member_checks(
                        *entry,
                        ao@,
                        path@,
                    ));
                    assert(checks_view(out@) =~= own + members_checks(eo@.take(i + 1), ao@, path@));
                }
                if ends_walk_exec(&out) {
                    proof {
                        let m = members_checks(eo@.take(i + 1), ao@, path@);
                        assert(m.len() > 0);
                        assert((own + m).last() == m.last());
                        lemma_members_checks_prefix(eo@, i + 1, ao@, path@);
                    }
                    return out;
                }
                i = i + 1;
            }
            proof {
                assert(eo@.take(eo@.len() as int) =~= eo@);
            }
            out
        },
        (JsonValue::Array(ea), JsonValue::Array(aa)) => {
            let mut i: usize = 0;
            assert(checks_view(out@) =~= elements_checks(ea@.take(0), aa@, path@));
            while i < ea.len()
                invariant
                    *expected == JsonValue::Array(*ea),
                    *actual == JsonValue::Array(*aa),
                    i <= ea@.len(),
                    checks_view(out@) == elements_checks(ea@.take(i as int), aa@, path@),
                    !ends_walk(checks_view(out@)),
                decreases ea@.len() - i,
            {
                let ghost done = checks_view(out@);
                proof {
                    assert(ea@.take(i + 1).drop_last() =~= ea@.take(i as int));
                    assert(ea@.take(i + 1).last() == ea@[i as int]);
                }
                if i < aa.len() {
                    let child_path = format_json_index_path(path, i);
                    proof {
                        assert(decreases_to!(*expected => expected->Array_0));
                        assert(decreases_to!(*ea => ea@));
                        assert(decreases_to!(ea@ => ea@[i as int]));
                    }
                    let sub = compare_geometric_errors(&ea[i], &aa[i], child_path.as_str());
                    append_checks(&mut out, sub);
                }
                proof {
                    assert(checks_view(out@) =~= elements_checks(ea@.take(i + 1), aa@, path@));
                }
                if ends_walk_exec(&out) {
                    proof {
                        lemma_elements_checks_prefix(ea@, i + 1, aa@, path@);
                    }
                    return out;
                }
                i = i + 1;
            }
            proof {
                assert(ea@.take(ea@.len() as int) =~= ea@);
            }
            out
        },
        _ => {
            assert(checks_view(out@) =~= seq![]);
            out
        },
    }
}


/// A document as a JSON parser gives it: no NaN among its numbers, and no
/// object with two members of one name.
pub open spec fn valid_json(v: JsonValue) -> bool
    decreases v,
{
    match v {
        JsonValue::Number(JsonNumber::Float(b)) => !is_nan_bits(b),
        JsonValue::Array(items) => valid_items(items@),
        JsonValue::Object(entries) => distinct_keys(entries@) && valid_members(entries@),
        _ => true,
    }
}

/// Every element is a valid document.
pub open spec fn valid_items(s: Seq<JsonValue>) -> bool
    decreases s,
{
    s.len() > 0 ==> valid_items(s.drop_last()) && valid_json(s.last())
}

/// Every member's value is a valid document.
pub open spec fn valid_members(s: Seq<(String, JsonValue)>) -> bool
    decreases s,
{
    s.len() > 0 ==> valid_members(s.drop_last()) && valid_json(s.last().1)
}

/// No two members share a name.
pub open spec fn distinct_keys(s: Seq<(String, JsonValue)>) -> bool {
    forall|i: int, j: int| 0 <= i < j < s.len() ==> s[i].0@ != s[j].0@
}

/// Every check compares a value with itself.
pub open spec fn self_compares(cs: Seq<CheckView>) -> bool {
    forall|i: int| 0 <= i < cs.len() ==> (#[trigger] cs[i] matches CheckView::Compare(_, x, y) && x == y)
}

proof fn lemma_valid_items(s: Seq<JsonValue>, j: int)
    requires
        valid_items(s),
        0 <= j < s.len(),
    ensures
        valid_json(s[j]),
    decreases s.len(),
{
    if j < s.len() - 1 {
        lemma_valid_items(s.drop_last(), j);
    }
}

proof fn lemma_valid_members(s: Seq<(String, JsonValue)>, j: int)
    requires
        valid_members(s),
        0 <= j < s.len(),
    ensures
        valid_json(s[j].1),
    decreases s.len(),
{
    if j < s.len() - 1 {
        lemma_valid_members(s.drop_last(), j);
    }
}

proof fn lemma_member_found(s: Seq<(String, JsonValue)>, j: int)
    requires
        distinct_keys(s),
        0 <= j < s.len(),
    ensures
        member(s, s[j].0@) == Some(s[j].1),
    decreases s.len(),
{
    if j > 0 {
        assert(s[0].0@ != s[j].0@);
        assert(s.drop_first()[j - 1] == s[j]);
        lemma_member_found(s.drop_first(), j - 1);
    }
}

proof fn lemma_then_self_compares(a: Seq<CheckView>, b: Seq<CheckView>)
    requires
        self_compares(a),
        self_compares(b),
    ensures
        self_compares(then_checks(a, b)),
{
    if !ends_walk(a) {
        assert forall|i: int| 0 <= i < (a + b).len() implies (#[trigger] (a + b)[i] matches CheckView::Compare(
            _,
            x,
            y,
        ) && x == y) by {
            if i < a.len() {
                assert((a + b)[i] == a[i]);
            } else {
                assert((a + b)[i] == b[i - a.len()]);
            }
        }
    }
}

proof fn lemma_members_reflexive(eo: Seq<(String, JsonValue)>, k: int, path: Seq<char>)
    requires
        distinct_keys(eo),
        0 <= k <= eo.len(),
        forall|j: int, q: Seq<char>|
            0 <= j < eo.len() ==> #[trigger] structure_mismatch(eo[j].1, eo[j].1, q) is None,
        forall|j: int, q: Seq<char>|
            0 <= j < eo.len() ==> self_compares(#[trigger] geometric_error_checks(eo[j].1, eo[j].1, q)),
    ensures
        members_mismatch(eo.take(k), eo, path) is None,
        first_unexpected(eo.take(k), eo, path) is None,
        self_compares(members_checks(eo.take(k), eo, path)),
    decreases k,
{
    if k > 0 {
        assert(eo.take(k).drop_last() =~= eo.take(k - 1));
        assert(eo.take(k).last() == eo[k - 1]);
        lemma_members_reflexive(eo, k - 1, path);
        lemma_member_found(eo, k - 1);
        let q = member_path(path, eo[k - 1].0@);
        assert(structure_mismatch(eo[k - 1].1, eo[k - 1].1, q) is None);
        assert(self_compares(geometric_error_checks(eo[k - 1].1, eo[k - 1].1, q)));
        assert(self_compares(member_checks(eo[k - 1], eo, path)));
        assert(member_mismatch(eo[k - 1], eo, path) is None);
        assert(members_mismatch(eo.take(k), eo, path) is None);
        lemma_then_self_compares(
            members_checks(eo.take(k - 1), eo, path),
            member_checks(eo[k - 1], eo, path),
        );
    } else {
        assert(eo.take(k).len() == 0);
        assert(self_compares(members_checks(eo.take(k), eo, path)));
    }
}

proof fn lemma_elements_reflexive(ea: Seq<JsonValue>, k: int, path: Seq<char>)
    requires
        0 <= k <= ea.len(),
        forall|j: int, q: Seq<char>|
            0 <= j < ea.len() ==> #[trigger] structure_mismatch(ea[j], ea[j], q) is None,
        forall|j: int, q: Seq<char>|
            0 <= j < ea.len() ==> self_compares(#[trigger] geometric_error_checks(ea[j], ea[j], q)),
    ensures
        elements_mismatch(ea.take(k), ea, path) is None,
        self_compares(elements_checks(ea.take(k), ea, path)),
    decreases k,
{
    if k > 0 {
        assert(ea.take(k).drop_last() =~= ea.take(k - 1));
        assert(ea.take(k).last() == ea[k - 1]);
        lemma_elements_reflexive(ea, k - 1, path);
        let q = element_path(path, (k - 1) as nat);
        assert(structure_mismatch(ea[k - 1], ea[k - 1], q) is None);
        assert(self_compares(geometric_error_checks(ea[k - 1], ea[k - 1], q)));
        lemma_then_self_compares(
            elements_checks(ea.take(k - 1), ea, path),
            geometric_error_checks(ea[k - 1], ea[k - 1], q),
        );
    } else {
        assert(self_compares(elements_checks(ea.take(k), ea, path)));
    }
}

/// A document compared with itself: the structural comparison finds no
/// difference, and every geometric-error check the walk meets compares a
/// value with itself, so that no check is missing or unexpected.
pub proof fn lemma_compare_reflexive(v: JsonValue, path: Seq<char>)
    requires
        valid_json(v),
    ensures
        structure_mismatch(v, v, path) is None,
        self_compares(geometric_error_checks(v, v, path)),
    decreases v,
{
    match v {
        JsonValue::Object(eo) => {
            assert forall|j: int, q: Seq<char>| 0 <= j < eo@.len() implies #[trigger] structure_mismatch(
                eo@[j].1,
                eo@[j].1,
                q,
            ) is None by {
                lemma_valid_members(eo@, j);
                assert(decreases_to!(v => v->Object_0));
                assert(decreases_to!(eo => eo@));
                assert(decreases_to!(eo@ => eo@[j]));
                assert(decreases_to!(eo@[j] => eo@[j].1));
                lemma_compare_reflexive(eo@[j].1, q);
            }
            assert forall|j: int, q: Seq<char>| 0 <= j < eo@.len() implies self_compares(
                #[trigger] geometric_error_checks(eo@[j].1, eo@[j].1, q),
            ) by {
                lemma_valid_members(eo@, j);
                assert(decreases_to!(v => v->Object_0));
                assert(decreases_to!(eo => eo@));
                assert(decreases_to!(eo@ => eo@[j]));
                assert(decreases_to!(eo@[j] => eo@[j].1));
                lemma_compare_reflexive(eo@[j].1, q);
            }
            lemma_members_reflexive(eo@, eo@.len() as int, path);
            assert(eo@.take(eo@.len() as int) =~= eo@);
            let own = own_check(eo@, eo@, path);
            assert(self_compares(own));
            lemma_then_self_compares(own, members_checks(eo@, eo@, path));
        },
        JsonValue::Array(ea) => {
            assert forall|j: int, q: Seq<char>| 0 <= j < ea@.len() implies #[trigger] structure_mismatch(
                ea@[j],
                ea@[j],
                q,
            ) is None by {
                lemma_valid_items(ea@, j);
                assert(decreases_to!(v => v->Array_0));
                assert(decreases_to!(ea => ea@));
                assert(decreases_to!(ea@ => ea@[j]));
                lemma_compare_reflexive(ea@[j], q);
            }
            assert forall|j: int, q: Seq<char>| 0 <= j < ea@.len() implies self_compares(
                #[trigger] geometric_error_checks(ea@[j], ea@[j], q),
            ) by {
                lemma_valid_items(ea@, j);
                assert(decreases_to!(v => v->Array_0));
                assert(decreases_to!(ea => ea@));
                assert(decreases_to!(ea@ => ea@[j]));
                lemma_compare_reflexive(ea@[j], q);
            }
            lemma_elements_reflexive(ea@, ea@.len() as int, path);
            assert(ea@.take(ea@.len() as int) =~= ea@);
        },
        _ => {},
    }
}


/// Two documents that differ at most in the values of their members named
/// `geometricError`: objects with the same member names in the same order,
/// arrays of the same length, and other values equal.
pub open spec fn same_but_geometric_errors(a: JsonValue, b: JsonValue) -> bool
    decreases a,
{
    match a {
        JsonValue::Object(x) => match b {
            JsonValue::Object(y) => members_same_but_geometric_errors(x@, y@),
            _ => false,
        },
        JsonValue::Array(x) => match b {
            JsonValue::Array(y) => items_same_but_geometric_errors(x@, y@),
            _ => false,
        },
        _ => a == b,
    }
}

/// Two lists of members with the same names in the same order, whose values
/// differ at most in their geometric errors.
pub open spec fn members_same_but_geometric_errors(s: Seq<(String, JsonValue)>, r: Seq<(String, JsonValue)>) -> bool
    decreases s,
{
    &&& s.len() == r.len()
    &&& s.len() > 0 ==> {
        &&& members_same_but_geometric_errors(s.drop_last(), r.drop_last())
        &&& s.last().0@ == r.last().0@
        &&& (s.last().0@ == geometric_error_key() || same_but_geometric_errors(
            s.last().1,
            r.last().1,
        ))
    }
}

/// Two lists of values, element by element the same but for geometric
/// errors.
pub open spec fn items_same_but_geometric_errors(s: Seq<JsonValue>, r: Seq<JsonValue>) -> bool
    decreases s,
{
    &&& s.len() == r.len()
    &&& s.len() > 0 ==> {
        &&& items_same_but_geometric_errors(s.drop_last(), r.drop_last())
        &&& same_but_geometric_errors(s.last(), r.last())
    }
}

/// Every check compares two values: none is missing or unexpected.
pub open spec fn only_compares(cs: Seq<CheckView>) -> bool {
    forall|i: int| 0 <= i < cs.len() ==> #[trigger] cs[i] is Compare
}

proof fn lemma_members_same_index(s: Seq<(String, JsonValue)>, r: Seq<(String, JsonValue)>, j: int)
    requires
        members_same_but_geometric_errors(s, r),
        0 <= j < s.len(),
    ensures
        s.len() == r.len(),
        s[j].0@ == r[j].0@,
        s[j].0@ != geometric_error_key() ==> same_but_geometric_errors(s[j].1, r[j].1),
    decreases s.len(),
{
    if j < s.len() - 1 {
        lemma_members_same_index(s.drop_last(), r.drop_last(), j);
    }
}

proof fn lemma_items_same_index(s: Seq<JsonValue>, r: Seq<JsonValue>, j: int)
    requires
        items_same_but_geometric_errors(s, r),
        0 <= j < s.len(),
    ensures
        s.len() == r.len(),
        same_but_geometric_errors(s[j], r[j]),
    decreases s.len(),
{
    if j < s.len() - 1 {
        lemma_items_same_index(s.drop_last(), r.drop_last(), j);
    }
}

proof fn lemma_member_same_keys(x: Seq<(String, JsonValue)>, y: Seq<(String, JsonValue)>, k: Seq<char>)
    requires
        x.len() == y.len(),
        forall|i: int| 0 <= i < x.len() ==> #[trigger] x[i].0@ == y[i].0@,
    ensures
        member(x, k) is Some <==> member(y, k) is Some,
    decreases x.len(),
{
    if x.len() > 0 {
        assert(x[0].0@ == y[0].0@);
        assert forall|i: int| 0 <= i < x.drop_first().len() implies #[trigger] x.drop_first()[i].0@
            == y.drop_first()[i].0@ by {
            assert(x[i + 1].0@ == y[i + 1].0@);
        }
        lemma_member_same_keys(x.drop_first(), y.drop_first(), k);
    }
}

proof fn lemma_then_only_compares(a: Seq<CheckView>, b: Seq<CheckView>)
    requires
        only_compares(a),
        only_compares(b),
    ensures
        only_compares(then_checks(a, b)),
{
    if !ends_walk(a) {
        assert forall|i: int| 0 <= i < (a + b).len() implies #[trigger] (a + b)[i] is Compare by {
            if i < a.len() {
                assert((a + b)[i] == a[i]);
            } else {
                assert((a + b)[i] == b[i - a.len()]);
            }
        }
    }
}

proof fn lemma_members_same(x: Seq<(String, JsonValue)>, y: Seq<(String, JsonValue)>, k: int, path: Seq<char>)
    requires
        distinct_keys(x),
        distinct_keys(y),
        x.len() == y.len(),
        0 <= k <= x.len(),
        forall|i: int| 0 <= i < x.len() ==> #[trigger] x[i].0@ == y[i].0@,
        forall|j: int, q: Seq<char>|
            0 <= j < x.len() && x[j].0@ != geometric_error_key() ==> #[trigger] structure_mismatch(
                x[j].1,
                y[j].1,
                q,
            ) is None,
        forall|j: int, q: Seq<char>|
            0 <= j < x.len() && x[j].0@ != geometric_error_key() ==> only_compares(
                #[trigger] geometric_error_checks(x[j].1, y[j].1, q),
            ),
    ensures
        members_mismatch(x.take(k), y, path) is None,
        first_unexpected(y.take(k), x, path) is None,
        only_compares(members_checks(x.take(k), y, path)),
    decreases k,
{
    if k > 0 {
        assert(x.take(k).drop_last() =~= x.take(k - 1));
        assert(x.take(k).last() == x[k - 1]);
        assert(y.take(k).drop_last() =~= y.take(k - 1));
        assert(y.take(k).last() == y[k - 1]);
        lemma_members_same(x, y, k - 1, path);
        assert(x[k - 1].0@ == y[k - 1].0@);
        lemma_member_found(y, k - 1);
        lemma_member_found(x, k - 1);
        let q = member_path(path, x[k - 1].0@);
        if x[k - 1].0@ != geometric_error_key() {
            assert(structure_mismatch(x[k - 1].1, y[k - 1].1, q) is None);
            assert(only_compares(geometric_error_checks(x[k - 1].1, y[k - 1].1, q)));
        }
        assert(member_mismatch(x[k - 1], y, path) is None);
        assert(only_compares(member_checks(x[k - 1], y, path)));
        lemma_then_only_compares(
            members_checks(x.take(k - 1), y, path),
            member_checks(x[k - 1], y, path),
        );
    } else {
        assert(x.take(k).len() == 0);
        assert(y.take(k).len() == 0);
        assert(only_compares(members_checks(x.take(k), y, path)));
    }
}

proof fn lemma_items_same(x: Seq<JsonValue>, y: Seq<JsonValue>, k: int, path: Seq<char>)
    requires
        x.len() == y.len(),
        0 <= k <= x.len(),
        forall|j: int, q: Seq<char>| 0 <= j < x.len() ==> #[trigger] structure_mismatch(x[j], y[j], q) is None,
        forall|j: int, q: Seq<char>|
            0 <= j < x.len() ==> only_compares(#[trigger] geometric_error_checks(x[j], y[j], q)),
    ensures
        elements_mismatch(x.take(k), y, path) is None,
        only_compares(elements_checks(x.take(k), y, path)),
    decreases k,
{
    if k > 0 {
        assert(x.take(k).drop_last() =~= x.take(k - 1));
        assert(x.take(k).last() == x[k - 1]);
        lemma_items_same(x, y, k - 1, path);
        let q = element_path(path, (k - 1) as nat);
        assert(structure_mismatch(x[k - 1], y[k - 1], q) is None);
        assert(only_compares(geometric_error_checks(x[k - 1], y[k - 1], q)));
        lemma_then_only_compares(
            elements_checks(x.take(k - 1), y, path),
            geometric_error_checks(x[k - 1], y[k - 1], q),
        );
    } else {
        assert(only_compares(elements_checks(x.take(k), y, path)));
    }
}

/// Two documents that differ at most in their geometric errors: the
/// structural comparison finds no difference, and every check the walk over
/// their geometric errors meets compares two values, none missing or
/// unexpected.
pub proof fn lemma_only_geometric_errors_differ(a: JsonValue, b: JsonValue, path: Seq<char>)
    requires
        valid_json(a),
        valid_json(b),
        same_but_geometric_errors(a, b),
    ensures
        structure_mismatch(a, b, path) is None,
        only_compares(geometric_error_checks(a, b, path)),
    decreases a,
{
    match (a, b) {
        (JsonValue::Object(x), JsonValue::Object(y)) => {
            assert forall|i: int| 0 <= i < x@.len() implies #[trigger] x@[i].0@ == y@[i].0@ by {
                lemma_members_same_index(x@, y@, i);
            }
            assert forall|j: int, q: Seq<char>|
                0 <= j < x@.len() && x@[j].0@ != geometric_error_key() implies #[trigger] structure_mismatch(
                x@[j].1,
                y@[j].1,
                q,
            ) is None by {
                lemma_members_same_index(x@, y@, j);
                lemma_valid_members(x@, j);
                lemma_valid_members(y@, j);
                assert(decreases_to!(a => a->Object_0));
                assert(decreases_to!(x => x@));
                assert(decreases_to!(x@ => x@[j]));
                assert(decreases_to!(x@[j] => x@[j].1));
                lemma_only_geometric_errors_differ(x@[j].1, y@[j].1, q);
            }
            assert forall|j: int, q: Seq<char>|
                0 <= j < x@.len() && x@[j].0@ != geometric_error_key() implies only_compares(
                #[trigger] geometric_error_checks(x@[j].1, y@[j].1, q),
            ) by {
                lemma_members_same_index(x@, y@, j);
                lemma_valid_members(x@, j);
                lemma_valid_members(y@, j);
                assert(decreases_to!(a => a->Object_0));
                assert(decreases_to!(x => x@));
                assert(decreases_to!(x@ => x@[j]));
                assert(decreases_to!(x@[j] => x@[j].1));
                lemma_only_geometric_errors_differ(x@[j].1, y@[j].1, q);
            }
            lemma_members_same(x@, y@, x@.len() as int, path);
            assert(x@.take(x@.len() as int) =~= x@);
            assert(y@.take(y@.len() as int) =~= y@);
            lemma_member_same_keys(x@, y@, geometric_error_key());
            let own = own_check(x@, y@, path);
            assert(only_compares(own));
            lemma_then_only_compares(own, members_checks(x@, y@, path));
        },
        (JsonValue::Array(x), JsonValue::Array(y)) => {
            assert forall|j: int, q: Seq<char>| 0 <= j < x@.len() implies #[trigger] structure_mismatch(
                x@[j],
                y@[j],
                q,
            ) is None by {
                lemma_items_same_index(x@, y@, j);
                lemma_valid_items(x@, j);
                lemma_valid_items(y@, j);
                assert(decreases_to!(a => a->Array_0));
                assert(decreases_to!(x => x@));
                assert(decreases_to!(x@ => x@[j]));
                lemma_only_geometric_errors_differ(x@[j], y@[j], q);
            }
            assert forall|j: int, q: Seq<char>| 0 <= j < x@.len() implies only_compares(
                #[trigger] geometric_error_checks(x@[j], y@[j], q),
            ) by {
                lemma_items_same_index(x@, y@, j);
                lemma_valid_items(x@, j);
                lemma_valid_items(y@, j);
                assert(decreases_to!(a => a->Array_0));
                assert(decreases_to!(x => x@));
                assert(decreases_to!(x@ => x@[j]));
                lemma_only_geometric_errors_differ(x@[j], y@[j], q);
            }
            if x@.len() > 0 {
                lemma_items_same_index(x@, y@, 0);
            }
            lemma_items_same(x@, y@, x@.len() as int, path);
            assert(x@.take(x@.len() as int) =~= x@);
        },
        _ => {},
    }
}


/// Two values that are not both objects and not both arrays pass the
/// structural comparison only when they are the same value: the same kind,
/// and equal booleans, equal integers of one sign, equal strings, or doubles
/// with equal bits (the two zeros aside). Otherwise the difference reported
/// is the pair itself, at the path compared.
pub proof fn lemma_leaf_comparison_is_exact(e: JsonValue, a: JsonValue, path: Seq<char>)
    requires
        !(e is Object && a is Object),
        !(e is Array && a is Array),
    ensures
        structure_mismatch(e, a, path) is None ==> match (e, a) {
            (JsonValue::Null, JsonValue::Null) => true,
            (JsonValue::Bool(x), JsonValue::Bool(y)) => x == y,
            (JsonValue::Number(JsonNumber::PosInt(x)), JsonValue::Number(JsonNumber::PosInt(y))) => x == y,
            (JsonValue::Number(JsonNumber::NegInt(x)), JsonValue::Number(JsonNumber::NegInt(y))) => x == y,
            (JsonValue::Number(JsonNumber::Float(x)), JsonValue::Number(JsonNumber::Float(y))) => x == y
                || (x & MAGNITUDE_BITS == 0 && y & MAGNITUDE_BITS == 0),
            (JsonValue::String(x), JsonValue::String(y)) => x@ == y@,
            _ => false,
        },
        structure_mismatch(e, a, path) is Some ==> structure_mismatch(e, a, path) == Some(
            MismatchView::Value(path, e, a),
        ),
{
}


proof fn lemma_member_index(s: Seq<(String, JsonValue)>, key: Seq<char>)
    requires
        member(s, key) is Some,
    ensures
        exists|j: int| 0 <= j < s.len() && #[trigger] s[j].0@ == key && member(s, key) == Some(s[j].1),
    decreases s.len(),
{
    if s[0].0@ == key {
        assert(s[0].0@ == key && member(s, key) == Some(s[0].1));
    } else {
        lemma_member_index(s.drop_first(), key);
        let j = choose|j: int|
            0 <= j < s.drop_first().len() && #[trigger] s.drop_first()[j].0@ == key && member(
                s.drop_first(),
                key,
            ) == Some(s.drop_first()[j].1);
        assert(s[j + 1] == s.drop_first()[j]);
    }
}

proof fn lemma_members_none_each(es: Seq<(String, JsonValue)>, ao: Seq<(String, JsonValue)>, path: Seq<char>, j: int)
    requires
        members_mismatch(es, ao, path) is None,
        0 <= j < es.len(),
    ensures
        member_mismatch(es[j], ao, path) is None,
    decreases es.len(),
{
    if j < es.len() - 1 {
        lemma_members_none_each(es.drop_last(), ao, path, j);
    }
}

proof fn lemma_unexpected_none_each(ao: Seq<(String, JsonValue)>, eo: Seq<(String, JsonValue)>, path: Seq<char>, j: int)
    requires
        first_unexpected(ao, eo, path) is None,
        0 <= j < ao.len(),
    ensures
        ao[j].0@ != geometric_error_key() ==> member(eo, ao[j].0@) is Some,
    decreases ao.len(),
{
    if j < ao.len() - 1 {
        lemma_unexpected_none_each(ao.drop_last(), eo, path, j);
    }
}

proof fn lemma_elements_none_each(ea: Seq<JsonValue>, aa: Seq<JsonValue>, path: Seq<char>, j: int)
    requires
        elements_mismatch(ea, aa, path) is None,
        0 <= j < ea.len(),
    ensures
        structure_mismatch(ea[j], aa[j], element_path(path, j as nat)) is None,
    decreases ea.len(),
{
    if j < ea.len() - 1 {
        lemma_elements_none_each(ea.drop_last(), aa, path, j);
    }
}

/// When the structural comparison finds no difference, the two documents
/// agree one level down: two objects have the same member names (the
/// geometric error aside) and each expected member's value agrees with the
/// actual one at the member's path; two arrays have the same length and
/// agree element by element; any other two values are equal leaves.
pub proof fn lemma_no_mismatch_means_agreement(e: JsonValue, a: JsonValue, path: Seq<char>)
    requires
        structure_mismatch(e, a, path) is None,
    ensures
        match (e, a) {
            (JsonValue::Object(eo), JsonValue::Object(ao)) => {
                &&& forall|k: Seq<char>|
                    k != geometric_error_key() && #[trigger] member(eo@, k) is Some ==> {
                        &&& member(ao@, k) is Some
                        &&& structure_mismatch(
                            member(eo@, k).unwrap(),
                            member(ao@, k).unwrap(),
                            member_path(path, k),
                        ) is None
                    }
                &&& forall|k: Seq<char>|
                    k != geometric_error_key() && #[trigger] member(ao@, k) is Some ==> member(
                        eo@,
                        k,
                    ) is Some
            },
            (JsonValue::Array(ea), JsonValue::Array(aa)) => {
                &&& ea@.len() == aa@.len()
                &&& forall|i: int|
                    0 <= i < ea@.len() ==> #[trigger] structure_mismatch(
                        ea@[i],
                        aa@[i],
                        element_path(path, i as nat),
                    ) is None
            },
            _ => leaf_eq(e, a),
        },
{
    match (e, a) {
        (JsonValue::Object(eo), JsonValue::Object(ao)) => {
            assert forall|k: Seq<char>|
                k != geometric_error_key() && #[trigger] member(eo@, k) is Some implies {
                    &&& member(ao@, k) is Some
                    &&& structure_mismatch(
                        member(eo@, k).unwrap(),
                        member(ao@, k).unwrap(),
                        member_path(path, k),
                    ) is None
                } by {
                lemma_member_index(eo@, k);
                let j = choose|j: int|
                    0 <= j < eo@.len() && #[trigger] eo@[j].0@ == k && member(eo@, k) == Some(
                        eo@[j].1,
                    );
                lemma_members_none_each(eo@, ao@, path, j);
            }
            assert forall|k: Seq<char>|
                k != geometric_error_key() && #[trigger] member(ao@, k) is Some implies member(
                    eo@,
                    k,
                ) is Some by {
                lemma_member_index(ao@, k);
                let j = choose|j: int|
                    0 <= j < ao@.len() && #[trigger] ao@[j].0@ == k && member(ao@, k) == Some(
                        ao@[j].1,
                    );
                lemma_unexpected_none_each(ao@, eo@, path, j);
            }
        },
        (JsonValue::Array(ea), JsonValue::Array(aa)) => {
            assert forall|i: int| 0 <= i < ea@.len() implies #[trigger] structure_mismatch(
                ea@[i],
                aa@[i],
                element_path(path, i as nat),
            ) is None by {
                lemma_elements_none_each(ea@, aa@, path, i);
            }
        },
        _ => {},
    }
}


/// At two objects the walk over geometric errors starts with the objects'
/// own geometric errors: a comparison of the two values when both have one,
/// and a missing or unexpected geometric error, alone, when only one does.
pub proof fn lemma_walk_starts_with_own_error(
    eo: Vec<(String, JsonValue)>,
    ao: Vec<(String, JsonValue)>,
    path: Seq<char>,
)
    ensures
        ({
            let cs = geometric_error_checks(JsonValue::Object(eo), JsonValue::Object(ao), path);
            match (member(eo@, geometric_error_key()), member(ao@, geometric_error_key())) {
                (Some(x), Some(y)) => cs.len() > 0 && cs[0] == CheckView::Compare(path, x, y),
                (Some(_), None) => cs == seq![CheckView::Missing(path)],
                (None, Some(_)) => cs == seq![CheckView::Unexpected(path)],
                (None, None) => cs == members_checks(eo@, ao@, path),
            }
        }),
{
    let own = own_check(eo@, ao@, path);
    let rest = members_checks(eo@, ao@, path);
    if !ends_walk(own) {
        assert(own + rest == then_checks(own, rest));
        if own.len() > 0 {
            assert((own + rest)[0] == own[0]);
        } else {
            assert(own + rest =~= rest);
        }
    }
}

} // verus!
