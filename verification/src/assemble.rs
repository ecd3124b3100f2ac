use crate::convert::{
    convert, spec_convert_err, spec_convert_ok, spec_value_ok, FieldType, ScalarType, Value,
};
use crate::errors::TypedMultipartError;
use crate::part::{Part, PartBody};
use crate::temp_file::TempFile;
use vstd::multiset::Multiset;
use vstd::prelude::*;

verus! {

broadcast use vstd::multiset::group_multiset_axioms;

/// A slot's arity policy.
#[derive(Clone, Copy)]
pub enum Cardinality {
    /// At least one occurrence, or assembly fails with `MissingField`.
    Required,
    /// Zero occurrences leave the slot absent.
    Optional,
    /// Zero occurrences fill the slot with the target type's zero value.
    Defaulted,
    /// Every occurrence is appended, in arrival order.
    List,
}

/// The static per-slot spec in the target shape: the part name to match
/// (possibly an alias distinct from the slot's programmatic name), the arity
/// policy, and the target type.
pub struct FieldDescriptor {
    pub source_name: String,
    pub cardinality: Cardinality,
    pub field_type: FieldType,
}

/// A registrable shape: source names pairwise distinct, and no defaulted
/// disk-backed slot (a temp file has no zero value).
pub open spec fn spec_shape_valid(fields: Seq<FieldDescriptor>) -> bool {
    &&& forall|i: int, j: int|
        #![trigger fields[i], fields[j]]
        0 <= i < j < fields.len() ==> fields[i].source_name@ != fields[j].source_name@
    &&& forall|i: int|
        0 <= i < fields.len() ==> ((#[trigger] fields[i]).cardinality is Defaulted
            ==> !(fields[i].field_type is Disk))
}

/// The ordered list of field descriptors describing how to assemble one
/// record type, validated once at registration, not per request.
pub struct TargetShape {
    fields: Vec<FieldDescriptor>,
}

impl TargetShape {
    /// The descriptors, in declaration order.
    pub closed spec fn spec_fields(&self) -> Seq<FieldDescriptor> {
        self.fields@
    }

    /// The registration-time invariant.
    pub open spec fn wf(&self) -> bool {
        spec_shape_valid(self.spec_fields())
    }

    /// Builds a validated shape; refuses duplicate source names and a
    /// defaulted disk-backed slot.
    pub fn new(fields: Vec<FieldDescriptor>) -> (r: Option<TargetShape>)
        ensures
            r is Some <==> spec_shape_valid(fields@),
            r is Some ==> r->Some_0.spec_fields() == fields@,
    {
        let n = fields.len();
        let mut i: usize = 0;
        while i < n
            invariant
                i <= n,
                n == fields@.len(),
                forall|a: int, b: int|
                    #![trigger fields@[a], fields@[b]]
                    0 <= a < b < n && a < i ==> fields@[a].source_name@ != fields@[b].source_name@,
                forall|a: int|
                    0 <= a < i ==> ((#[trigger] fields@[a]).cardinality is Defaulted ==> !(
                    fields@[a].field_type is Disk)),
            decreases n - i,
        {
            let defaulted = matches!(fields[i].cardinality, Cardinality::Defaulted);
            let disk = matches!(fields[i].field_type, FieldType::Disk);
            if defaulted && disk {
                return None;
            }
            let mut j: usize = i + 1;
            while j < n
                invariant
                    i < j <= n,
                    n == fields@.len(),
                    forall|b: int|
                        #![trigger fields@[b]]
                        i < b < j ==> fields@[i as int].source_name@ != fields@[b].source_name@,
                decreases n - j,
            {
                if fields[i].source_name == fields[j].source_name {
                    return None;
                }
                j = j + 1;
            }
            i = i + 1;
        }
        Some(TargetShape { fields })
    }

    /// The number of slots in the shape.
    pub fn len(&self) -> (n: usize)
        ensures
            n == self.spec_fields().len(),
    {
        self.fields.len()
    }
}

/// The first descriptor whose source name equals `name`, if any.
pub open spec fn spec_find(fields: Seq<FieldDescriptor>, name: Seq<char>) -> Option<int>
    decreases fields.len(),
{
    if fields.len() == 0 {
        None
    } else if fields[0].source_name@ == name {
        Some(0)
    } else {
        match spec_find(fields.drop_first(), name) {
            None => None,
            Some(j) => Some(j + 1),
        }
    }
}

/// `spec_find` returns the first match: a valid index naming `name` with no
/// earlier match, or nothing when no descriptor matches.
pub proof fn lemma_find_spec(fields: Seq<FieldDescriptor>, name: Seq<char>)
    ensures
        match spec_find(fields, name) {
            None => forall|k: int|
                0 <= k < fields.len() ==> (#[trigger] fields[k]).source_name@ != name,
            Some(j) => 0 <= j < fields.len() && fields[j].source_name@ == name && forall|k: int|
                0 <= k < j ==> (#[trigger] fields[k]).source_name@ != name,
        },
    decreases fields.len(),
{
    if fields.len() > 0 && fields[0].source_name@ != name {
        lemma_find_spec(fields.drop_first(), name);
        match spec_find(fields.drop_first(), name) {
            None => {
                assert forall|k: int|
                    0 <= k < fields.len() implies (#[trigger] fields[k]).source_name@ != name by {
                    if k > 0 {
                        assert(fields.drop_first()[k - 1] == fields[k]);
                    }
                }
            },
            Some(j) => {
                assert(fields.drop_first()[j] == fields[j + 1]);
                assert forall|k: int|
                    0 <= k < j + 1 implies (#[trigger] fields[k]).source_name@ != name by {
                    if k > 0 {
                        assert(fields.drop_first()[k - 1] == fields[k]);
                    }
                }
            },
        }
    }
}

/// Finds the slot the part dispatches to, by source name.
fn find_slot(shape: &TargetShape, name: &String) -> (r: Option<usize>)
    ensures
        match r {
            Some(j) => spec_find(shape.spec_fields(), name@) == Some(j as int),
            None => spec_find(shape.spec_fields(), name@) is None,
        },
{
    let n = shape.fields.len();
    let mut i: usize = 0;
    while i < n
        invariant
            i <= n,
            n == shape.spec_fields().len(),
            forall|k: int|
                0 <= k < i ==> (#[trigger] shape.spec_fields()[k]).source_name@ != name@,
        decreases n - i,
    {
        if shape.fields[i].source_name == *name {
            proof {
                lemma_find_spec(shape.spec_fields(), name@);
            }
            return Some(i);
        }
        i = i + 1;
    }
    proof {
        lemma_find_spec(shape.spec_fields(), name@);
    }
    None
}

/// One finalized slot of the record.
pub enum SlotValue {
    /// An optional slot with zero occurrences.
    Missing,
    /// The single value of a non-list slot.
    Single(Value),
    /// The accumulated values of a list slot, in arrival order.
    Multiple(Vec<Value>),
}

/// The fully populated record: one finalized slot per descriptor, in
/// declaration order.
pub struct Record {
    pub slots: Vec<SlotValue>,
}

/// The outcome of one assembly run: the record or the first error, plus
/// every temp-file handle the run absorbed without placing it in the record.
/// The caller deletes the backing file of each reclaimed handle, and of each
/// handle in the record it never persists, when the run's scope ends.
pub struct AssemblyOutcome {
    pub result: Result<Record, TypedMultipartError>,
    pub reclaim: Vec<TempFile>,
}

/// The parts named `name`, in arrival order.
pub open spec fn occs(parts: Seq<Part>, name: Seq<char>) -> Seq<Part>
    decreases parts.len(),
{
    if parts.len() == 0 {
        Seq::empty()
    } else {
        let rest = occs(parts.drop_last(), name);
        if parts.last().name@ == name {
            rest.push(parts.last())
        } else {
            rest
        }
    }
}

/// One more part extends exactly the occurrences of its own name.
pub proof fn lemma_occs_push(parts: Seq<Part>, name: Seq<char>, p: Part)
    ensures
        occs(parts.push(p), name) == if p.name@ == name {
            occs(parts, name).push(p)
        } else {
            occs(parts, name)
        },
{
    assert(parts.push(p).drop_last() =~= parts);
    assert(parts.push(p).last() == p);
}

/// During a run: the state a slot must hold after the given parts, under
/// last-occurrence-wins for non-list slots and arrival order for lists.
pub open spec fn spec_slot_state_ok(d: FieldDescriptor, parts: Seq<Part>, s: SlotValue) -> bool {
    let o = occs(parts, d.source_name@);
    if d.cardinality is List {
        s matches SlotValue::Multiple(vs) && vs@.len() == o.len() && (forall|k: int|
            0 <= k < o.len() ==> spec_value_ok(d.field_type, o[k], #[trigger] vs@[k]))
    } else {
        if o.len() == 0 {
            s is Missing
        } else {
            s matches SlotValue::Single(v) && spec_value_ok(d.field_type, o.last(), v)
        }
    }
}

/// The zero value a defaulted slot takes when it is absent.
pub open spec fn spec_default_ok(ft: FieldType, v: Value) -> bool {
    match ft {
        FieldType::Scalar(ScalarType::Integer) => v == Value::Integer(0i64),
        FieldType::Scalar(ScalarType::Unsigned) => v == Value::Unsigned(0u64),
        FieldType::Scalar(ScalarType::Boolean) => v == Value::Boolean(false),
        FieldType::Scalar(ScalarType::Character) => v == Value::Character('\0'),
        FieldType::Text => v matches Value::Text(s) && s@ == Seq::<char>::empty(),
        FieldType::Binary => v matches Value::Binary(b) && b@ == Seq::<u8>::empty(),
        FieldType::Disk => false,
    }
}

/// What each slot of a returned record holds, after finalization.
pub open spec fn spec_slot_final_ok(d: FieldDescriptor, parts: Seq<Part>, s: SlotValue) -> bool {
    let o = occs(parts, d.source_name@);
    match d.cardinality {
        Cardinality::List => spec_slot_state_ok(d, parts, s),
        Cardinality::Required => o.len() > 0 && spec_slot_state_ok(d, parts, s),
        Cardinality::Optional => spec_slot_state_ok(d, parts, s),
        Cardinality::Defaulted => if o.len() == 0 {
            s matches SlotValue::Single(v) && spec_default_ok(d.field_type, v)
        } else {
            spec_slot_state_ok(d, parts, s)
        },
    }
}

/// Whether dispatching and converting this one part fails.
pub open spec fn spec_part_fails(fields: Seq<FieldDescriptor>, strict: bool, p: Part) -> bool {
    match spec_find(fields, p.name@) {
        None => strict,
        Some(j) => !spec_convert_ok(fields[j].field_type, p),
    }
}

/// Every part either dispatches and converts, or is leniently skipped.
pub open spec fn spec_parts_all_ok(
    fields: Seq<FieldDescriptor>,
    parts: Seq<Part>,
    strict: bool,
) -> bool {
    forall|i: int| 0 <= i < parts.len() ==> !spec_part_fails(fields, strict, #[trigger] parts[i])
}

/// Some required slot has zero occurrences.
pub open spec fn spec_required_missing(fields: Seq<FieldDescriptor>, parts: Seq<Part>) -> bool {
    exists|j: int|
        0 <= j < fields.len() && (#[trigger] fields[j]).cardinality is Required && occs(
            parts,
            fields[j].source_name@,
        ).len() == 0
}

/// Assembly succeeds exactly when every part converts (or is skipped) and
/// every required slot is fed.
pub open spec fn spec_assembly_succeeds(
    fields: Seq<FieldDescriptor>,
    parts: Seq<Part>,
    strict: bool,
) -> bool {
    spec_parts_all_ok(fields, parts, strict) && !spec_required_missing(fields, parts)
}

/// The error owed for one failing part.
pub open spec fn spec_part_error_ok(
    fields: Seq<FieldDescriptor>,
    strict: bool,
    p: Part,
    e: TypedMultipartError,
) -> bool {
    match spec_find(fields, p.name@) {
        None => strict && (e matches TypedMultipartError::UnknownField { field_name }
            && field_name@ == p.name@),
        Some(j) => spec_convert_err(fields[j].field_type, p, e),
    }
}

/// The first error of the run: the error of the earliest failing part, or,
/// when every part converts, `MissingField` naming the first (in declaration
/// order) required slot with zero occurrences.
pub open spec fn spec_error_ok(
    fields: Seq<FieldDescriptor>,
    parts: Seq<Part>,
    strict: bool,
    e: TypedMultipartError,
) -> bool {
    if !spec_parts_all_ok(fields, parts, strict) {
        exists|i: int|
            0 <= i < parts.len() && spec_part_fails(fields, strict, #[trigger] parts[i]) && (
            forall|k: int| 0 <= k < i ==> !spec_part_fails(fields, strict, #[trigger] parts[k]))
                && spec_part_error_ok(fields, strict, parts[i], e)
    } else {
        exists|j: int|
            0 <= j < fields.len() && (#[trigger] fields[j]).cardinality is Required && occs(
                parts,
                fields[j].source_name@,
            ).len() == 0 && (forall|k: int|
                0 <= k < j ==> !((#[trigger] fields[k]).cardinality is Required && occs(
                    parts,
                    fields[k].source_name@,
                ).len() == 0)) && (e matches TypedMultipartError::MissingField { field_name }
                && field_name@ == fields[j].source_name@)
    }
}

// ---------------------------------------------------------------------------
// Temp-file accounting: every handle that enters a run leaves it, either in
// the record or in the reclaim list — none is duplicated, none is dropped.
// ---------------------------------------------------------------------------
/// The temp-file handle inside a body, if any.
pub open spec fn file_of_body(b: PartBody) -> Multiset<TempFile> {
    match b {
        PartBody::File(f) => Multiset::singleton(f),
        PartBody::Bytes(_) => Multiset::empty(),
    }
}

/// The temp-file handles inside a part sequence.
pub open spec fn files_of_parts(parts: Seq<Part>) -> Multiset<TempFile>
    decreases parts.len(),
{
    if parts.len() == 0 {
        Multiset::empty()
    } else {
        files_of_parts(parts.drop_last()).add(file_of_body(parts.last().body))
    }
}

/// The temp-file handle inside a value, if any.
pub open spec fn file_of_value(v: Value) -> Multiset<TempFile> {
    match v {
        Value::File(f) => Multiset::singleton(f),
        _ => Multiset::empty(),
    }
}

/// The temp-file handles inside a value sequence.
pub open spec fn files_of_values(vs: Seq<Value>) -> Multiset<TempFile>
    decreases vs.len(),
{
    if vs.len() == 0 {
        Multiset::empty()
    } else {
        files_of_values(vs.drop_last()).add(file_of_value(vs.last()))
    }
}

/// The temp-file handles inside one slot.
pub open spec fn files_of_slot(s: SlotValue) -> Multiset<TempFile> {
    match s {
        SlotValue::Missing => Multiset::empty(),
        SlotValue::Single(v) => file_of_value(v),
        SlotValue::Multiple(vs) => files_of_values(vs@),
    }
}

/// The temp-file handles inside a slot sequence.
pub open spec fn files_of_slots(ss: Seq<SlotValue>) -> Multiset<TempFile>
    decreases ss.len(),
{
    if ss.len() == 0 {
        Multiset::empty()
    } else {
        files_of_slots(ss.drop_last()).add(files_of_slot(ss.last()))
    }
}

/// The temp-file handles of a reclaim list.
pub open spec fn files_of_handles(fs: Seq<TempFile>) -> Multiset<TempFile>
    decreases fs.len(),
{
    if fs.len() == 0 {
        Multiset::empty()
    } else {
        files_of_handles(fs.drop_last()).add(Multiset::singleton(fs.last()))
    }
}

/// The temp-file handles an outcome accounts for: those in the record (on
/// success) plus those owed reclamation.
pub open spec fn files_of_outcome(out: AssemblyOutcome) -> Multiset<TempFile> {
    (match out.result {
        Ok(rec) => files_of_slots(rec.slots@),
        Err(_) => Multiset::empty(),
    }).add(files_of_handles(out.reclaim@))
}

pub proof fn lemma_files_parts_push(parts: Seq<Part>, p: Part)
    ensures
        files_of_parts(parts.push(p)) == files_of_parts(parts).add(file_of_body(p.body)),
{
    assert(parts.push(p).drop_last() =~= parts);
    assert(parts.push(p).last() == p);
}

pub proof fn lemma_files_values_push(vs: Seq<Value>, v: Value)
    ensures
        files_of_values(vs.push(v)) == files_of_values(vs).add(file_of_value(v)),
{
    assert(vs.push(v).drop_last() =~= vs);
    assert(vs.push(v).last() == v);
}

pub proof fn lemma_files_slots_push(ss: Seq<SlotValue>, s: SlotValue)
    ensures
        files_of_slots(ss.push(s)) == files_of_slots(ss).add(files_of_slot(s)),
{
    assert(ss.push(s).drop_last() =~= ss);
    assert(ss.push(s).last() == s);
}

pub proof fn lemma_files_handles_push(fs: Seq<TempFile>, f: TempFile)
    ensures
        files_of_handles(fs.push(f)) == files_of_handles(fs).add(Multiset::singleton(f)),
{
    assert(fs.push(f).drop_last() =~= fs);
    assert(fs.push(f).last() == f);
}

/// Unfolding a slot sequence from the front.
pub proof fn lemma_files_slots_first(ss: Seq<SlotValue>)
    requires
        ss.len() > 0,
    ensures
        files_of_slots(ss) == files_of_slot(ss[0]).add(files_of_slots(ss.drop_first())),
    decreases ss.len(),
{
    if ss.len() == 1 {
        assert(ss.drop_last() =~= Seq::<SlotValue>::empty());
        assert(ss.drop_first() =~= Seq::<SlotValue>::empty());
        assert(ss.last() == ss[0]);
        assert(files_of_slot(ss[0]).add(files_of_slots(ss.drop_first())) =~= files_of_slots(
            ss.drop_last(),
        ).add(files_of_slot(ss.last())));
    } else {
        lemma_files_slots_first(ss.drop_last());
        assert(ss.drop_last()[0] == ss[0]);
        assert(ss.drop_last().drop_first() =~= ss.drop_first().drop_last());
        assert(ss.drop_first().last() == ss.last());
        assert(files_of_slots(ss.drop_first()) == files_of_slots(
            ss.drop_first().drop_last(),
        ).add(files_of_slot(ss.drop_first().last())));
        assert(files_of_slot(ss[0]).add(files_of_slots(ss.drop_first())) =~= files_of_slots(
            ss.drop_last(),
        ).add(files_of_slot(ss.last())));
    }
}

/// Replacing one slot moves exactly its files.
pub proof fn lemma_files_slots_update(ss: Seq<SlotValue>, j: int, s: SlotValue)
    requires
        0 <= j < ss.len(),
    ensures
        files_of_slots(ss.update(j, s)).add(files_of_slot(ss[j])) == files_of_slots(ss).add(
            files_of_slot(s),
        ),
    decreases ss.len(),
{
    if j == ss.len() - 1 {
        let t = ss.update(j, s);
        assert(t.len() == ss.len());
        assert(t.drop_last() =~= ss.drop_last());
        assert(t.last() == s);
        assert(files_of_slots(t) == files_of_slots(t.drop_last()).add(files_of_slot(t.last())));
        assert(files_of_slots(ss) == files_of_slots(ss.drop_last()).add(files_of_slot(ss.last())));
        assert(ss[j] == ss.last());
        assert(files_of_slots(t).add(files_of_slot(ss[j])) =~= files_of_slots(ss).add(
            files_of_slot(s),
        ));
    } else {
        let t = ss.update(j, s);
        let dd = ss.drop_last();
        lemma_files_slots_update(dd, j, s);
        assert(t.len() == ss.len());
        assert(t.drop_last() =~= dd.update(j, s));
        assert(t.last() == ss.last());
        assert(dd[j] == ss[j]);
        assert(files_of_slots(t) == files_of_slots(t.drop_last()).add(files_of_slot(t.last())));
        assert(files_of_slots(t.drop_last()) == files_of_slots(dd.update(j, s)));
        assert(files_of_slots(ss) == files_of_slots(dd).add(files_of_slot(ss.last())));
        assert forall|x: TempFile|
            files_of_slots(t).add(files_of_slot(ss[j])).count(x) == files_of_slots(ss).add(
                files_of_slot(s),
            ).count(x) by {
            assert(files_of_slots(t).count(x) == files_of_slots(dd.update(j, s)).count(x)
                + files_of_slot(ss.last()).count(x));
            assert(files_of_slots(dd.update(j, s)).add(files_of_slot(dd[j])).count(x)
                == files_of_slots(dd).add(files_of_slot(s)).count(x));
            assert(files_of_slots(dd.update(j, s)).count(x) + files_of_slot(dd[j]).count(x)
                == files_of_slots(dd).count(x) + files_of_slot(s).count(x));
            assert(files_of_slots(ss).count(x) == files_of_slots(dd).count(x) + files_of_slot(
                ss.last(),
            ).count(x));
        }
        assert(files_of_slots(t).add(files_of_slot(ss[j])) =~= files_of_slots(ss).add(
            files_of_slot(s),
        ));
    }
}

/// Splitting a part sequence splits its files.
pub proof fn lemma_files_parts_split(parts: Seq<Part>, i: int)
    requires
        0 <= i <= parts.len(),
    ensures
        files_of_parts(parts) == files_of_parts(parts.take(i)).add(files_of_parts(parts.skip(i))),
    decreases parts.len() - i,
{
    if i == parts.len() {
        assert(parts.take(i) =~= parts);
        assert(parts.skip(i) =~= Seq::<Part>::empty());
        assert(files_of_parts(parts.take(i)).add(files_of_parts(parts.skip(i))) =~= files_of_parts(
            parts,
        ));
    } else {
        lemma_files_parts_split(parts, i + 1);
        assert(parts.take(i + 1) =~= parts.take(i).push(parts[i]));
        lemma_files_parts_push(parts.take(i), parts[i]);
        assert(parts.skip(i) =~= seq![parts[i]] + parts.skip(i + 1));
        lemma_files_parts_first(parts.skip(i));
        assert(parts.skip(i)[0] == parts[i]);
        assert(parts.skip(i).drop_first() =~= parts.skip(i + 1));
        assert(files_of_parts(parts.take(i)).add(files_of_parts(parts.skip(i))) =~= files_of_parts(
            parts.take(i + 1),
        ).add(files_of_parts(parts.skip(i + 1))));
    }
}

/// Unfolding a part sequence from the front.
pub proof fn lemma_files_parts_first(parts: Seq<Part>)
    requires
        parts.len() > 0,
    ensures
        files_of_parts(parts) == file_of_body(parts[0].body).add(
            files_of_parts(parts.drop_first()),
        ),
    decreases parts.len(),
{
    if parts.len() == 1 {
        assert(parts.drop_last() =~= Seq::<Part>::empty());
        assert(parts.drop_first() =~= Seq::<Part>::empty());
        assert(parts.last() == parts[0]);
        assert(file_of_body(parts[0].body).add(files_of_parts(parts.drop_first()))
            =~= files_of_parts(parts.drop_last()).add(file_of_body(parts.last().body)));
    } else {
        lemma_files_parts_first(parts.drop_last());
        assert(parts.drop_last()[0] == parts[0]);
        assert(parts.drop_last().drop_first() =~= parts.drop_first().drop_last());
        assert(parts.drop_first().last() == parts.last());
        assert(file_of_body(parts[0].body).add(files_of_parts(parts.drop_first()))
            =~= files_of_parts(parts.drop_last()).add(file_of_body(parts.last().body)));
    }
}

/// The target type's zero value, for an absent defaulted slot.
fn zero_value(ft: &FieldType) -> (v: Value)
    requires
        !((*ft) is Disk),
    ensures
        spec_default_ok(*ft, v),
        file_of_value(v) == Multiset::<TempFile>::empty(),
{
    match ft {
        FieldType::Scalar(ScalarType::Integer) => Value::Integer(0),
        FieldType::Scalar(ScalarType::Unsigned) => Value::Unsigned(0),
        FieldType::Scalar(ScalarType::Boolean) => Value::Boolean(false),
        FieldType::Scalar(ScalarType::Character) => Value::Character('\0'),
        FieldType::Text => Value::Text(String::new()),
        FieldType::Binary => Value::Binary(Vec::new()),
        FieldType::Disk => Value::Boolean(false),
    }
}

/// Hands every temp-file handle among the values to the reclaim list.
fn reclaim_values(vs: Vec<Value>, reclaim: &mut Vec<TempFile>)
    ensures
        files_of_handles(final(reclaim)@) == files_of_handles(old(reclaim)@).add(
            files_of_values(vs@),
        ),
{
    let ghost target = files_of_handles(old(reclaim)@).add(files_of_values(vs@));
    let mut vs = vs;
    while vs.len() > 0
        invariant
            files_of_handles(reclaim@).add(files_of_values(vs@)) == target,
        decreases vs@.len(),
    {
        let ghost prev = vs@;
        if let Some(v) = vs.pop() {
            proof {
                assert(prev.drop_last() == vs@);
                assert(prev.last() == v);
            }
            match v {
                Value::File(f) => {
                    proof {
                        lemma_files_handles_push(reclaim@, f);
                    }
                    reclaim.push(f);
                },
                _ => {
                    proof {
                        assert(file_of_value(v) =~= Multiset::<TempFile>::empty());
                    }
                },
            }
            proof {
                assert(files_of_handles(reclaim@).add(files_of_values(vs@)) =~= target);
            }
        }
    }
    proof {
        assert(files_of_values(vs@) =~= Multiset::<TempFile>::empty());
        assert(files_of_handles(reclaim@) =~= target);
    }
}

/// Hands every temp-file handle among the slots to the reclaim list.
fn reclaim_slots(ss: Vec<SlotValue>, reclaim: &mut Vec<TempFile>)
    ensures
        files_of_handles(final(reclaim)@) == files_of_handles(old(reclaim)@).add(
            files_of_slots(ss@),
        ),
{
    let ghost target = files_of_handles(old(reclaim)@).add(files_of_slots(ss@));
    let mut ss = ss;
    while ss.len() > 0
        invariant
            files_of_handles(reclaim@).add(files_of_slots(ss@)) == target,
        decreases ss@.len(),
    {
        let ghost prev = ss@;
        if let Some(s) = ss.pop() {
            proof {
                assert(prev.drop_last() == ss@);
                assert(prev.last() == s);
            }
            let ghost before = reclaim@;
            let ghost sf = files_of_slot(s);
            match s {
                SlotValue::Missing => {
                    proof {
                        assert(sf =~= Multiset::<TempFile>::empty());
                    }
                },
                SlotValue::Single(v) => match v {
                    Value::File(f) => {
                        proof {
                            lemma_files_handles_push(reclaim@, f);
                        }
                        reclaim.push(f);
                    },
                    _ => {
                        proof {
                            assert(sf =~= Multiset::<TempFile>::empty());
                        }
                    },
                },
                SlotValue::Multiple(vs) => {
                    reclaim_values(vs, reclaim);
                },
            }
            proof {
                assert(files_of_handles(reclaim@) =~= files_of_handles(before).add(sf));
                assert(files_of_handles(reclaim@).add(files_of_slots(ss@)) =~= target);
            }
        }
    }
    proof {
        assert(files_of_slots(ss@) =~= Multiset::<TempFile>::empty());
        assert(files_of_handles(reclaim@) =~= target);
    }
}

/// Hands every temp-file handle among unprocessed parts to the reclaim list.
fn reclaim_parts(parts: Vec<Part>, reclaim: &mut Vec<TempFile>)
    ensures
        files_of_handles(final(reclaim)@) == files_of_handles(old(reclaim)@).add(
            files_of_parts(parts@),
        ),
{
    let ghost target = files_of_handles(old(reclaim)@).add(files_of_parts(parts@));
    let mut parts = parts;
    while parts.len() > 0
        invariant
            files_of_handles(reclaim@).add(files_of_parts(parts@)) == target,
        decreases parts@.len(),
    {
        let ghost prev = parts@;
        if let Some(p) = parts.pop() {
            proof {
                assert(prev.drop_last() == parts@);
                assert(prev.last() == p);
            }
            let Part { name: _, metadata: _, body } = p;
            match body {
                PartBody::File(f) => {
                    proof {
                        lemma_files_handles_push(reclaim@, f);
                    }
                    reclaim.push(f);
                },
                PartBody::Bytes(_) => {
                    proof {
                        assert(file_of_body(p.body) =~= Multiset::<TempFile>::empty());
                    }
                },
            }
            proof {
                assert(files_of_handles(reclaim@).add(files_of_parts(parts@)) =~= target);
            }
        }
    }
    proof {
        assert(files_of_parts(parts@) =~= Multiset::<TempFile>::empty());
        assert(files_of_handles(reclaim@) =~= target);
    }
}

/// Places one converted value into slot `j`: appended for a list slot,
/// overwriting for a non-list slot whose previous temp file, if any, moves
/// to the reclaim list.
#[verifier::loop_isolation(false)]
#[verifier::rlimit(100)]
#[verifier::spinoff_prover]
fn place_value(
    shape: &TargetShape,
    j: usize,
    v: Value,
    states: &mut Vec<SlotValue>,
    reclaim: &mut Vec<TempFile>,
    Ghost(done): Ghost<Seq<Part>>,
    Ghost(gp): Ghost<Part>,
)
    requires
        shape.wf(),
        spec_find(shape.spec_fields(), gp.name@) == Some(j as int),
        old(states)@.len() == shape.spec_fields().len(),
        forall|k: int|
            0 <= k < shape.spec_fields().len() ==> spec_slot_state_ok(
                shape.spec_fields()[k],
                done,
                #[trigger] old(states)@[k],
            ),
        spec_value_ok(shape.spec_fields()[j as int].field_type, gp, v),
    ensures
        final(states)@.len() == shape.spec_fields().len(),
        forall|k: int|
            0 <= k < shape.spec_fields().len() ==> spec_slot_state_ok(
                shape.spec_fields()[k],
                done.push(gp),
                #[trigger] final(states)@[k],
            ),
        files_of_slots(final(states)@).add(files_of_handles(final(reclaim)@)) == files_of_slots(
            old(states)@,
        ).add(files_of_handles(old(reclaim)@)).add(file_of_value(v)),
{
    let ghost fields = shape.spec_fields();
    proof {
        lemma_find_spec(fields, gp.name@);
    }
    let ghost prev_states = states@;
    let ghost reclaim0 = reclaim@;
    let st = states.remove(j);
    let new_st = match st {
        SlotValue::Multiple(vs0) => {
            let mut vs = vs0;
            let ghost pv = vs@;
            vs.push(v);
            proof {
                lemma_files_values_push(pv, v);
            }
            SlotValue::Multiple(vs)
        },
        SlotValue::Single(prev_v) => {
            match prev_v {
                Value::File(f) => {
                    proof {
                        lemma_files_handles_push(reclaim@, f);
                    }
                    reclaim.push(f);
                },
                _ => {},
            }
            SlotValue::Single(v)
        },
        SlotValue::Missing => SlotValue::Single(v),
    };
    proof {
        prev_states.remove_ensures(j as int);
        prev_states.remove(j as int).insert_ensures(j as int, new_st);
    }
    states.insert(j, new_st);
    proof {
        assert(states@ =~= prev_states.update(j as int, new_st));
        lemma_files_slots_update(prev_states, j as int, new_st);
        assert forall|k: int|
            0 <= k < fields.len() implies spec_slot_state_ok(
            fields[k],
            done.push(gp),
            #[trigger] states@[k],
        ) by {
            lemma_occs_push(done, fields[k].source_name@, gp);
            if k == j as int {
                assert(states@[k] == new_st);
                assert(occs(done.push(gp), fields[k].source_name@) =~= occs(
                    done,
                    fields[k].source_name@,
                ).push(gp));
            } else {
                assert(fields[k].source_name@ != fields[j as int].source_name@);
                assert(states@[k] == prev_states[k]);
            }
        }
        assert forall|x: TempFile|
            files_of_slots(states@).add(files_of_handles(reclaim@)).count(x) == files_of_slots(
                prev_states,
            ).add(files_of_handles(reclaim0)).add(file_of_value(v)).count(x) by {
            assert(files_of_slots(prev_states.update(j as int, new_st)).add(
                files_of_slot(prev_states[j as int]),
            ).count(x) == files_of_slots(prev_states).add(files_of_slot(new_st)).count(x));
        }
        assert(files_of_slots(states@).add(files_of_handles(reclaim@)) =~= files_of_slots(
            prev_states,
        ).add(files_of_handles(reclaim0)).add(file_of_value(v)));
    }
}

/// Dispatches one part to its slot and converts it: the per-part step of the
/// assembly loop. `done` is the prefix of the stream already processed.
///
/// On success the matched slot absorbs the converted value or, leniently,
/// the part is skipped with its temp file reclaimed. On failure the slots
/// are untouched and the failing part's temp file, if any, is reclaimed.
#[verifier::loop_isolation(false)]
#[verifier::rlimit(100)]
#[verifier::spinoff_prover]
fn feed_part(
    shape: &TargetShape,
    p: Part,
    states: &mut Vec<SlotValue>,
    reclaim: &mut Vec<TempFile>,
    strict: bool,
    Ghost(done): Ghost<Seq<Part>>,
) -> (r: Result<(), TypedMultipartError>)
    requires
        shape.wf(),
        old(states)@.len() == shape.spec_fields().len(),
        forall|k: int|
            0 <= k < shape.spec_fields().len() ==> spec_slot_state_ok(
                shape.spec_fields()[k],
                done,
                #[trigger] old(states)@[k],
            ),
    ensures
        final(states)@.len() == shape.spec_fields().len(),
        r is Ok <==> !spec_part_fails(shape.spec_fields(), strict, p),
        r is Ok ==> forall|k: int|
            0 <= k < shape.spec_fields().len() ==> spec_slot_state_ok(
                shape.spec_fields()[k],
                done.push(p),
                #[trigger] final(states)@[k],
            ),
        r is Err ==> spec_part_error_ok(shape.spec_fields(), strict, p, r->Err_0),
        files_of_slots(final(states)@).add(files_of_handles(final(reclaim)@)) == files_of_slots(
            old(states)@,
        ).add(files_of_handles(old(reclaim)@)).add(file_of_body(p.body)),
{
    let ghost fields = shape.spec_fields();
    let ghost gp = p;
    match find_slot(shape, &p.name) {
        None => {
            proof {
                lemma_find_spec(fields, gp.name@);
            }
            let Part { name, metadata: _, body } = p;
            match body {
                PartBody::File(f) => {
                    proof {
                        lemma_files_handles_push(reclaim@, f);
                    }
                    reclaim.push(f);
                },
                PartBody::Bytes(_) => {
                    proof {
                        assert(file_of_body(gp.body) =~= Multiset::<TempFile>::empty());
                    }
                },
            }
            proof {
                assert(files_of_slots(states@).add(files_of_handles(reclaim@)) =~= files_of_slots(
                    old(states)@,
                ).add(files_of_handles(old(reclaim)@)).add(file_of_body(gp.body)));
            }
            if strict {
                let e = TypedMultipartError::UnknownField { field_name: name };
                proof {
                    assert(spec_part_fails(fields, strict, gp));
                    assert(spec_part_error_ok(fields, strict, gp, e));
                }
                Err(e)
            } else {
                proof {
                    assert forall|k: int|
                        0 <= k < fields.len() implies spec_slot_state_ok(
                        fields[k],
                        done.push(gp),
                        #[trigger] states@[k],
                    ) by {
                        lemma_occs_push(done, fields[k].source_name@, gp);
                        assert(fields[k].source_name@ != gp.name@);
                    }
                    assert(!spec_part_fails(fields, strict, gp));
                }
                Ok(())
            }
        },
        Some(j) => {
            proof {
                lemma_find_spec(fields, gp.name@);
            }
            let ft = shape.fields[j].field_type;
            let body_is_file = matches!(&p.body, PartBody::File(_));
            let ft_is_disk = matches!(&ft, FieldType::Disk);
            proof {
                assert(ft == fields[j as int].field_type);
                assert(body_is_file == (gp.body is File));
                assert(ft_is_disk == (ft is Disk));
            }
            if body_is_file != ft_is_disk {
                let Part { name: _, metadata: _, body } = p;
                match body {
                    PartBody::File(f) => {
                        proof {
                            lemma_files_handles_push(reclaim@, f);
                        }
                        reclaim.push(f);
                    },
                    PartBody::Bytes(_) => {
                        proof {
                            assert(file_of_body(gp.body) =~= Multiset::<TempFile>::empty());
                        }
                    },
                }
                let e = TypedMultipartError::InvalidRequestBody;
                proof {
                    assert(!spec_convert_ok(fields[j as int].field_type, gp));
                    assert(spec_convert_err(fields[j as int].field_type, gp, e));
                    assert(spec_part_fails(fields, strict, gp));
                    assert(spec_part_error_ok(fields, strict, gp, e));
                    assert(files_of_slots(states@).add(files_of_handles(reclaim@))
                        =~= files_of_slots(old(states)@).add(files_of_handles(old(reclaim)@)).add(
                        file_of_body(gp.body),
                    ));
                }
                return Err(e);
            }
            match convert(&ft, p) {
                Ok(v) => {
                    proof {
                        assert(spec_value_ok(fields[j as int].field_type, gp, v));
                        assert(file_of_body(gp.body) =~= file_of_value(v)) by {
                            if gp.body is File {
                                assert(v == Value::File(gp.body->File_0));
                            } else {
                                assert(!(fields[j as int].field_type is Disk));
                                assert(!(v is File));
                            }
                        }
                        assert(!spec_part_fails(fields, strict, gp));
                    }
                    place_value(shape, j, v, states, reclaim, Ghost(done), Ghost(gp));
                    Ok(())
                },
                Err(e) => {
                    proof {
                        assert(file_of_body(gp.body) =~= Multiset::<TempFile>::empty());
                        assert(spec_part_fails(fields, strict, gp));
                        assert(spec_part_error_ok(fields, strict, gp, e));
                    }
                    Err(e)
                },
            }
        },
    }
}

/// Aborts a run on its first error: every temp-file handle still held — in
/// the slot states and in the unprocessed parts — joins the reclaim list,
/// and no record is produced.
fn fail_run(
    e: TypedMultipartError,
    states: Vec<SlotValue>,
    rest: Vec<Part>,
    reclaim: Vec<TempFile>,
) -> (out: AssemblyOutcome)
    ensures
        out.result is Err && out.result->Err_0 == e,
        files_of_outcome(out) == files_of_handles(reclaim@).add(files_of_slots(states@)).add(
            files_of_parts(rest@),
        ),
{
    let ghost r0 = reclaim@;
    let mut reclaim = reclaim;
    reclaim_slots(states, &mut reclaim);
    reclaim_parts(rest, &mut reclaim);
    let out = AssemblyOutcome { result: Err(e), reclaim };
    proof {
        assert(files_of_outcome(out) =~= files_of_handles(r0).add(files_of_slots(states@)).add(
            files_of_parts(rest@),
        ));
    }
    out
}

/// Builds the initial slot states: an empty sequence for each list slot, an
/// absent value for every other slot.
#[verifier::loop_isolation(false)]
fn init_states(shape: &TargetShape) -> (states: Vec<SlotValue>)
    ensures
        states@.len() == shape.spec_fields().len(),
        forall|k: int|
            0 <= k < shape.spec_fields().len() ==> spec_slot_state_ok(
                shape.spec_fields()[k],
                Seq::<Part>::empty(),
                #[trigger] states@[k],
            ),
        files_of_slots(states@) == Multiset::<TempFile>::empty(),
{
    let ghost fields = shape.spec_fields();
    let n_slots = shape.len();
    let mut states: Vec<SlotValue> = Vec::new();
    let mut j0: usize = 0;
    while j0 < n_slots
        invariant
            j0 <= n_slots,
            states@.len() == j0,
            forall|k: int|
                0 <= k < j0 ==> spec_slot_state_ok(
                    fields[k],
                    Seq::<Part>::empty(),
                    #[trigger] states@[k],
                ),
            files_of_slots(states@) == Multiset::<TempFile>::empty(),
        decreases n_slots - j0,
    {
        let ghost prev = states@;
        let st = if matches!(&shape.fields[j0].cardinality, Cardinality::List) {
            SlotValue::Multiple(Vec::new())
        } else {
            SlotValue::Missing
        };
        proof {
            lemma_files_slots_push(prev, st);
            assert(files_of_slot(st) =~= Multiset::<TempFile>::empty());
            assert(files_of_slots(prev).add(files_of_slot(st)) =~= Multiset::<TempFile>::empty());
        }
        states.push(st);
        proof {
            assert forall|k: int|
                0 <= k < j0 + 1 implies spec_slot_state_ok(
                fields[k],
                Seq::<Part>::empty(),
                #[trigger] states@[k],
            ) by {
                if k < j0 {
                    assert(states@[k] == prev[k]);
                } else {
                    assert(states@[k] == st);
                    assert(occs(Seq::<Part>::empty(), fields[k].source_name@) =~= Seq::<
                        Part,
                    >::empty());
                }
            }
        }
        j0 = j0 + 1;
    }
    states
}

/// Finalizes the slot states once the stream is exhausted with every part
/// converted: fails with `MissingField` for the first required slot with
/// zero occurrences, leaves an absent optional slot absent, fills an absent
/// defaulted slot with the target type's zero value, and returns the record
/// otherwise.
#[verifier::loop_isolation(false)]
#[verifier::rlimit(100)]
#[verifier::spinoff_prover]
fn finalize_states(
    shape: &TargetShape,
    states: Vec<SlotValue>,
    reclaim: Vec<TempFile>,
    strict: bool,
    Ghost(all): Ghost<Seq<Part>>,
) -> (out: AssemblyOutcome)
    requires
        shape.wf(),
        states@.len() == shape.spec_fields().len(),
        forall|k: int|
            0 <= k < shape.spec_fields().len() ==> spec_slot_state_ok(
                shape.spec_fields()[k],
                all,
                #[trigger] states@[k],
            ),
        spec_parts_all_ok(shape.spec_fields(), all, strict),
    ensures
        out.result is Ok <==> !spec_required_missing(shape.spec_fields(), all),
        out.result is Ok ==> ({
            let slots = out.result->Ok_0.slots@;
            &&& slots.len() == shape.spec_fields().len()
            &&& forall|j: int|
                0 <= j < slots.len() ==> spec_slot_final_ok(
                    shape.spec_fields()[j],
                    all,
                    #[trigger] slots[j],
                )
        }),
        out.result is Err ==> spec_error_ok(shape.spec_fields(), all, strict, out.result->Err_0),
        files_of_outcome(out) == files_of_slots(states@).add(files_of_handles(reclaim@)),
{
    let ghost fields = shape.spec_fields();
    let ghost st0 = states@;
    let ghost r0 = reclaim@;
    let mut states = states;
    let mut reclaim = reclaim;
    let n_slots = shape.len();
    let mut slots: Vec<SlotValue> = Vec::new();
    let mut j: usize = 0;
    while j < n_slots
        invariant
            j <= n_slots,
            states@ == st0.skip(j as int),
            reclaim@ == r0,
            slots@.len() == j,
            forall|k: int| 0 <= k < j ==> spec_slot_final_ok(fields[k], all, #[trigger] slots@[k]),
            forall|k: int|
                0 <= k < j ==> !((#[trigger] fields[k]).cardinality is Required && occs(
                    all,
                    fields[k].source_name@,
                ).len() == 0),
            files_of_slots(st0) == files_of_slots(slots@).add(files_of_slots(states@)),
        decreases n_slots - j,
    {
        let ghost prev_states = states@;
        let ghost prev_slots = slots@;
        let st = states.remove(0);
        proof {
            assert(st == prev_states[0]);
            assert(prev_states[0] == st0[j as int]);
            assert(prev_states.remove(0) =~= st0.skip(j as int + 1));
            assert(states@ == st0.skip(j as int + 1));
            lemma_files_slots_first(prev_states);
            assert(spec_slot_state_ok(fields[j as int], all, st));
        }
        let card = shape.fields[j].cardinality;
        let missing = matches!(&st, SlotValue::Missing);
        match card {
            Cardinality::Required => {
                if missing {
                    let e = TypedMultipartError::MissingField {
                        field_name: shape.fields[j].source_name.clone(),
                    };
                    proof {
                        assert(occs(all, fields[j as int].source_name@).len() == 0);
                        assert(spec_required_missing(fields, all));
                        assert(spec_error_ok(fields, all, strict, e));
                        assert(files_of_slot(st) =~= Multiset::<TempFile>::empty());
                    }
                    let mut reclaim = reclaim;
                    reclaim_slots(slots, &mut reclaim);
                    let rest: Vec<Part> = Vec::new();
                    let out = fail_run(e, states, rest, reclaim);
                    proof {
                        assert(files_of_parts(rest@) =~= Multiset::<TempFile>::empty());
                        assert(files_of_outcome(out) =~= files_of_slots(st0).add(
                            files_of_handles(r0),
                        ));
                    }
                    return out;
                } else {
                    proof {
                        lemma_files_slots_push(prev_slots, st);
                    }
                    slots.push(st);
                }
            },
            Cardinality::Optional => {
                proof {
                    lemma_files_slots_push(prev_slots, st);
                }
                slots.push(st);
            },
            Cardinality::List => {
                proof {
                    lemma_files_slots_push(prev_slots, st);
                }
                slots.push(st);
            },
            Cardinality::Defaulted => {
                if missing {
                    let dv = zero_value(&shape.fields[j].field_type);
                    let ns = SlotValue::Single(dv);
                    proof {
                        lemma_files_slots_push(prev_slots, ns);
                        assert(files_of_slot(ns) =~= files_of_slot(st));
                    }
                    slots.push(ns);
                } else {
                    proof {
                        lemma_files_slots_push(prev_slots, st);
                    }
                    slots.push(st);
                }
            },
        }
        proof {
            assert(slots@.len() == j + 1);
            assert forall|k: int|
                0 <= k < j + 1 implies spec_slot_final_ok(
                fields[k],
                all,
                #[trigger] slots@[k],
            ) by {
                if k < j {
                    assert(slots@[k] == prev_slots[k]);
                }
            }
            assert(files_of_slots(st0) =~= files_of_slots(slots@).add(files_of_slots(states@)));
        }
        j = j + 1;
    }
    proof {
        assert(states@ == st0.skip(n_slots as int));
        assert(files_of_slots(states@) =~= Multiset::<TempFile>::empty());
        assert(!spec_required_missing(fields, all));
    }
    let out = AssemblyOutcome { result: Ok(Record { slots }), reclaim };
    proof {
        assert(files_of_outcome(out) =~= files_of_slots(st0).add(files_of_handles(r0)));
    }
    out
}

/// Consumes the ordered part stream and assembles the record.
///
/// Each part dispatches to the slot whose source name equals the part's
/// name: a list slot appends the converted value in arrival order, a
/// non-list slot is overwritten so the last occurrence wins. Under the
/// lenient policy (`strict` false) a part matching no descriptor is skipped;
/// under the strict policy it fails with `UnknownField`. The first error —
/// a failed conversion while the stream is walked, then `MissingField` for
/// the first required slot with zero occurrences — aborts the run: no
/// partial record is ever returned. On success an absent optional slot stays
/// absent, an absent defaulted slot takes the target type's zero value, and
/// an untouched list slot is the empty sequence.
///
/// Every temp-file handle the parts carried comes out exactly once: in the
/// record, or in the reclaim list the caller must delete.
#[verifier::loop_isolation(false)]
#[verifier::rlimit(100)]
#[verifier::spinoff_prover]
pub fn assemble(shape: &TargetShape, parts: Vec<Part>, strict: bool) -> (out: AssemblyOutcome)
    requires
        shape.wf(),
    ensures
        out.result is Ok <==> spec_assembly_succeeds(shape.spec_fields(), parts@, strict),
        out.result is Ok ==> ({
            let slots = out.result->Ok_0.slots@;
            &&& slots.len() == shape.spec_fields().len()
            &&& forall|j: int|
                0 <= j < slots.len() ==> spec_slot_final_ok(
                    shape.spec_fields()[j],
                    parts@,
                    #[trigger] slots[j],
                )
        }),
        out.result is Err ==> spec_error_ok(shape.spec_fields(), parts@, strict, out.result->Err_0),
        files_of_parts(parts@) == files_of_outcome(out),
{
    let ghost fields = shape.spec_fields();
    let ghost all = parts@;
    let total_parts = parts.len();
    proof {
        assert(all.len() == total_parts as int);
    }
    let mut parts = parts;
    let mut reclaim: Vec<TempFile> = Vec::new();
    let mut states: Vec<SlotValue> = init_states(shape);
    let mut i: usize = 0;
    while parts.len() > 0
        invariant
            i <= all.len(),
            parts@ == all.skip(i as int),
            states@.len() == fields.len(),
            forall|k: int|
                0 <= k < fields.len() ==> spec_slot_state_ok(
                    fields[k],
                    all.take(i as int),
                    #[trigger] states@[k],
                ),
            forall|k: int| 0 <= k < i ==> !spec_part_fails(fields, strict, #[trigger] all[k]),
            files_of_parts(all.take(i as int)) == files_of_slots(states@).add(
                files_of_handles(reclaim@),
            ),
        decreases parts@.len(),
    {
        proof {
            assert(all.skip(i as int).len() > 0);
        }
        let ghost prev_parts = parts@;
        let p = parts.remove(0);
        let ghost gp = p;
        proof {
            assert(gp == all.skip(i as int)[0]);
            assert(all.skip(i as int)[0] == all[i as int]);
            assert(parts@ == prev_parts.remove(0));
            assert(prev_parts.remove(0) =~= all.skip(i as int + 1));
            assert(all.take(i as int + 1) =~= all.take(i as int).push(gp));
            lemma_files_parts_push(all.take(i as int), gp);
        }
        match feed_part(shape, p, &mut states, &mut reclaim, strict, Ghost(all.take(i as int))) {
            Ok(()) => {
                proof {
                    assert(files_of_parts(all.take(i as int + 1)) =~= files_of_slots(states@).add(
                        files_of_handles(reclaim@),
                    ));
                }
            },
            Err(e) => {
                proof {
                    lemma_files_parts_split(all, i as int + 1);
                    assert(spec_part_fails(fields, strict, all[i as int]));
                    assert(!spec_parts_all_ok(fields, all, strict));
                    assert(spec_error_ok(fields, all, strict, e));
                    assert(files_of_parts(all.take(i as int + 1)) =~= files_of_slots(states@).add(
                        files_of_handles(reclaim@),
                    ));
                }
                let out = fail_run(e, states, parts, reclaim);
                proof {
                    assert(files_of_parts(all) =~= files_of_outcome(out));
                }
                return out;
            },
        }
        i = i + 1;
    }
    proof {
        assert(all.skip(i as int).len() == 0);
        assert(i == all.len());
        assert(all.take(i as int) =~= all);
        assert(spec_parts_all_ok(fields, all, strict));
    }
    let out = finalize_states(shape, states, reclaim, strict, Ghost(all));
    proof {
        assert(files_of_parts(all) =~= files_of_outcome(out));
    }
    out
}

} // verus!
