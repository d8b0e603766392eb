//! Where each field of a struct lies in a binary row of fixed-size scalars.
//!
//! When every property of an element is a scalar of known size, a row can be
//! read in one piece and each struct field served from its byte offset. The
//! plan is refused when a property is a list, when sizes are not fixed (ASCII),
//! when no property matches a field, or when the matched fields are not the
//! leading ones (which is how extra field aliases show).
use vstd::prelude::*;

use crate::reader::{scalar_byte_size, spec_decode, spec_scalar_size, BinValReader, ScalarValue};
use crate::types::{props_view, PlyFormat, PlyProperty, PropertyType, ScalarType, SpecProperty};

verus! {

/// For each struct field, in order: the offset and type of the property it reads.
pub struct SeqPlan {
    pub row_byte_size: usize,
    pub field_offsets: Vec<Option<(usize, ScalarType)>>,
}

impl SeqPlan {
    /// Every planned field lies inside the row.
    pub open spec fn wf(&self) -> bool {
        forall|i: int|
            0 <= i < self.field_offsets@.len() ==> (#[trigger] self.field_offsets@[i] matches Some(
                (off, t),
            ) ==> off + spec_scalar_size(t) <= self.row_byte_size)
    }

    /// The value of field `i` in a row read in one piece: `None` for a field
    /// that no property feeds.
    pub fn read_field(&self, reader: &BinValReader, row: &[u8], i: usize) -> (r: Option<
        ScalarValue,
    >)
        requires
            self.wf(),
            row@.len() == self.row_byte_size,
            i < self.field_offsets@.len(),
        ensures
            match self.field_offsets@[i as int] {
                Some((off, t)) => r == Some(
                    spec_decode(
                        reader.endian,
                        t,
                        row@.subrange(off as int, off + spec_scalar_size(t)),
                    ),
                ),
                None => r is None,
            },
    {
        match self.field_offsets[i] {
            Some((off, t)) => match reader.read_scalar(row, off, t) {
                Ok((v, _)) => Some(v),
                Err(_) => None,
            },
            None => None,
        }
    }
}

pub open spec fn is_list(p: SpecProperty) -> bool {
    p.property_type is List
}

pub open spec fn has_list(props: Seq<SpecProperty>) -> bool {
    exists|k: int| 0 <= k < props.len() && is_list(#[trigger] props[k])
}

/// Size in bytes of a property in a binary row (lists have none that is fixed).
pub open spec fn prop_size(p: SpecProperty) -> nat {
    match p.property_type {
        PropertyType::Scalar(t) => spec_scalar_size(t),
        PropertyType::List { .. } => 0,
    }
}

pub open spec fn prop_scalar(p: SpecProperty) -> ScalarType {
    match p.property_type {
        PropertyType::Scalar(t) => t,
        PropertyType::List { data_type, .. } => data_type,
    }
}

/// Total size of the properties, in order.
pub open spec fn row_size(props: Seq<SpecProperty>) -> nat
    decreases props.len(),
{
    if props.len() == 0 {
        0
    } else {
        row_size(props.drop_last()) + prop_size(props.last())
    }
}

/// The index of the last name in `names` equal to `name`.
pub open spec fn last_index_of(names: Seq<Seq<char>>, name: Seq<char>) -> Option<int>
    decreases names.len(),
{
    if names.len() == 0 {
        None
    } else if names.last() == name {
        Some(names.len() - 1)
    } else {
        last_index_of(names.drop_last(), name)
    }
}

pub open spec fn prop_names(props: Seq<SpecProperty>) -> Seq<Seq<char>> {
    props.map_values(|p: SpecProperty| p.name)
}

pub open spec fn str_names(fields: Seq<&str>) -> Seq<Seq<char>> {
    fields.map_values(|f: &str| f@)
}

/// The number of properties whose name is a field name.
pub open spec fn matched_count(props: Seq<SpecProperty>, fields: Seq<Seq<char>>) -> nat
    decreases props.len(),
{
    if props.len() == 0 {
        0
    } else {
        matched_count(props.drop_last(), fields) + if last_index_of(fields, props.last().name)
            is Some {
            1nat
        } else {
            0nat
        }
    }
}

/// The largest field index that a property name matches (0 if none does).
pub open spec fn max_matched(props: Seq<SpecProperty>, fields: Seq<Seq<char>>) -> nat
    decreases props.len(),
{
    if props.len() == 0 {
        0
    } else {
        let m = max_matched(props.drop_last(), fields);
        match last_index_of(fields, props.last().name) {
            Some(i) => if i > m {
                i as nat
            } else {
                m
            },
            None => m,
        }
    }
}

/// Where a field's value lies: the offset and type of the last property so named.
pub open spec fn plan_entry(props: Seq<SpecProperty>, name: Seq<char>) -> Option<(usize, ScalarType)> {
    match last_index_of(prop_names(props), name) {
        Some(k) => Some((row_size(props.take(k)) as usize, prop_scalar(props[k]))),
        None => None,
    }
}

/// The plan for reading rows of `props` into a struct with `fields`: its row
/// size and, for each field, where its value lies.
pub open spec fn spec_seq_plan(format: PlyFormat, props: Seq<SpecProperty>, fields: Seq<Seq<char>>) -> Option<
    (nat, Seq<Option<(usize, ScalarType)>>),
> {
    if format == PlyFormat::Ascii || has_list(props) || matched_count(props, fields) == 0
        || max_matched(props, fields) >= matched_count(props, fields) {
        None
    } else {
        Some((row_size(props), fields.map_values(|f: Seq<char>| plan_entry(props, f))))
    }
}

pub proof fn lemma_row_size_prefix(props: Seq<SpecProperty>, k: int)
    requires
        0 <= k <= props.len(),
    ensures
        row_size(props.take(k)) <= row_size(props),
    decreases props.len() - k,
{
    if k < props.len() {
        lemma_row_size_prefix(props, k + 1);
        assert(props.take(k + 1).drop_last() =~= props.take(k));
    } else {
        assert(props.take(k) =~= props);
    }
}

/// The total size of the scalar properties of a row, if it fits in `usize`.
pub fn row_byte_size(properties: &[PlyProperty]) -> (r: Option<usize>)
    ensures
        match r {
            Some(n) => n == row_size(props_view(properties@)),
            None => row_size(props_view(properties@)) > usize::MAX,
        },
{
    let ghost props = props_view(properties@);
    let mut total: usize = 0;
    let mut k: usize = 0;
    assert(props.take(0) =~= Seq::<SpecProperty>::empty());
    while k < properties.len()
        invariant
            props == props_view(properties@),
            k <= properties@.len(),
            total == row_size(props.take(k as int)),
        decreases properties.len() - k,
    {
        assert(props.take(k + 1).drop_last() =~= props.take(k as int));
        assert(props[k as int] == properties@[k as int]@);
        let size: usize = match properties[k].property_type {
            PropertyType::Scalar(t) => scalar_byte_size(t),
            PropertyType::List { .. } => 0,
        };
        if total > usize::MAX - size {
            proof {
                lemma_row_size_prefix(props, k + 1);
            }
            return None;
        }
        total = total + size;
        k = k + 1;
    }
    assert(props.take(properties@.len() as int) =~= props);
    Some(total)
}

/// The index of the last of `names[0..n]` equal to `name`.
fn last_index(names: &Vec<String>, name: &String) -> (r: Option<usize>)
    ensures
        match last_index_of(names@.map_values(|s: String| s@), name@) {
            Some(i) => r == Some(i as usize),
            None => r is None,
        },
{
    let ghost ns = names@.map_values(|s: String| s@);
    let mut found: Option<usize> = None;
    let mut i: usize = 0;
    assert(ns.take(0) =~= Seq::<Seq<char>>::empty());
    while i < names.len()
        invariant
            i <= names@.len(),
            ns == names@.map_values(|s: String| s@),
            match last_index_of(ns.take(i as int), name@) {
                Some(j) => found == Some(j as usize),
                None => found is None,
            },
        decreases names.len() - i,
    {
        assert(ns.take(i + 1).drop_last() =~= ns.take(i as int));
        assert(ns.take(i + 1).last() == names@[i as int]@);
        if names[i] == *name {
            found = Some(i);
        }
        i = i + 1;
    }
    assert(ns.take(names@.len() as int) =~= ns);
    found
}

/// Try to build the plan for reading rows of `properties` into a struct whose
/// fields are named `fields`, in declaration order.
pub fn build_seq_plan(format: PlyFormat, properties: &[PlyProperty], fields: &[&str]) -> (r: Option<
    SeqPlan,
>)
    requires
        row_size(props_view(properties@)) <= usize::MAX,
    ensures
        match spec_seq_plan(format, props_view(properties@), str_names(fields@)) {
            None => r is None,
            Some((size, offsets)) => r matches Some(p) && p.row_byte_size == size
                && p.field_offsets@ == offsets && p.wf(),
        },
{
    let ghost props = props_view(properties@);
    let ghost fnames = str_names(fields@);
    if format == PlyFormat::Ascii {
        return None;
    }
    // Offsets of the properties, and their names.

    let mut offsets: Vec<usize> = Vec::new();
    let mut names: Vec<String> = Vec::new();
    let mut offset: usize = 0;
    let mut k: usize = 0;
    assert(props.take(0) =~= Seq::<SpecProperty>::empty());
    while k < properties.len()
        invariant
            props == props_view(properties@),
            row_size(props) <= usize::MAX,
            k <= properties@.len(),
            offset == row_size(props.take(k as int)),
            offsets@.len() == k,
            names@.len() == k,
            forall|j: int| 0 <= j < k ==> #[trigger] offsets@[j] == row_size(props.take(j)),
            forall|j: int| 0 <= j < k ==> (#[trigger] names@[j])@ == props[j].name,
            forall|j: int| 0 <= j < k ==> !is_list(#[trigger] props[j]),
        decreases properties.len() - k,
    {
        assert(props.take(k + 1).drop_last() =~= props.take(k as int));
        assert(props[k as int] == properties@[k as int]@);
        match properties[k].property_type {
            PropertyType::Scalar(t) => {
                proof {
                    lemma_row_size_prefix(props, k + 1);
                }
                offsets.push(offset);
                names.push(properties[k].name.clone());
                offset = offset + scalar_byte_size(t);
            },
            PropertyType::List { .. } => {
                assert(is_list(props[k as int]));
                return None;
            },
        }
        k = k + 1;
    }
    assert(props.take(properties@.len() as int) =~= props);
    assert(!has_list(props));
    assert(names@.map_values(|s: String| s@) =~= prop_names(props));
    // Field names, and how many properties match one.

    let mut fstrings: Vec<String> = Vec::new();
    let mut i: usize = 0;
    while i < fields.len()
        invariant
            i <= fields@.len(),
            fstrings@.len() == i,
            forall|j: int| 0 <= j < i ==> (#[trigger] fstrings@[j])@ == fields@[j]@,
        decreases fields.len() - i,
    {
        fstrings.push(fields[i].to_owned());
        i = i + 1;
    }
    assert(fstrings@.map_values(|s: String| s@) =~= fnames);
    let mut num_matched: usize = 0;
    let mut max_index: usize = 0;
    let mut k: usize = 0;
    while k < properties.len()
        invariant
            props == props_view(properties@),
            fnames == str_names(fields@),
            fstrings@.map_values(|s: String| s@) == fnames,
            names@.len() == properties@.len(),
            forall|j: int| 0 <= j < properties@.len() ==> (#[trigger] names@[j])@ == props[j].name,
            k <= properties@.len(),
            num_matched == matched_count(props.take(k as int), fnames),
            max_index == max_matched(props.take(k as int), fnames),
            num_matched <= k,
        decreases properties.len() - k,
    {
        assert(props.take(k + 1).drop_last() =~= props.take(k as int));
        assert(props.take(k + 1).last().name == names@[k as int]@);
        proof {
            lemma_last_index_of(fnames, names@[k as int]@);
        }
        match last_index(&fstrings, &names[k]) {
            Some(idx) => {
                assert(last_index_of(fnames, props.take(k + 1).last().name) == Some(idx as int));
                num_matched = num_matched + 1;
                if idx > max_index {
                    max_index = idx;
                }
                assert(max_index == max_matched(props.take(k + 1), fnames));
            },
            None => {},
        }
        k = k + 1;
    }
    assert(props.take(properties@.len() as int) =~= props);
    if num_matched == 0 || max_index >= num_matched {
        return None;
    }
    // For each field, where its value lies.

    let mut field_offsets: Vec<Option<(usize, ScalarType)>> = Vec::new();
    let mut i: usize = 0;
    while i < fields.len()
        invariant
            props == props_view(properties@),
            fnames == str_names(fields@),
            fstrings@.map_values(|s: String| s@) == fnames,
            names@.map_values(|s: String| s@) == prop_names(props),
            offsets@.len() == properties@.len(),
            forall|j: int| 0 <= j < properties@.len() ==> #[trigger] offsets@[j] == row_size(
                props.take(j),
            ),
            forall|j: int| 0 <= j < properties@.len() ==> !is_list(#[trigger] props[j]),
            i <= fields@.len(),
            fstrings@.len() == fields@.len(),
            names@.len() == properties@.len(),
            field_offsets@.len() == i,
            forall|j: int| 0 <= j < i ==> #[trigger] field_offsets@[j] == plan_entry(props, fnames[j]),
        decreases fields.len() - i,
    {
        assert(fstrings@.map_values(|s: String| s@)[i as int] == fnames[i as int]);
        proof {
            lemma_last_index_of(prop_names(props), fnames[i as int]);
        }
        let entry = match last_index(&names, &fstrings[i]) {
            Some(k) => {
                assert(props[k as int] == properties@[k as int]@);
                match properties[k].property_type {
                    PropertyType::Scalar(t) => Some((offsets[k], t)),
                    PropertyType::List { .. } => {
                        assert(is_list(props[k as int]));
                        None
                    },
                }
            },
            None => None,
        };
        field_offsets.push(entry);
        i = i + 1;
    }
    assert(field_offsets@ =~= fnames.map_values(|f: Seq<char>| plan_entry(props, f)));
    let plan = SeqPlan { row_byte_size: offset, field_offsets };
    assert forall|i: int| 0 <= i < plan.field_offsets@.len() implies (
    #[trigger] plan.field_offsets@[i] matches Some((off, t)) ==> off + spec_scalar_size(t)
        <= plan.row_byte_size) by {
        lemma_plan_in_row(format, props, fnames, i);
    }
    Some(plan)
}

proof fn lemma_last_index_of(names: Seq<Seq<char>>, name: Seq<char>)
    ensures
        last_index_of(names, name) matches Some(k) ==> 0 <= k < names.len() && names[k] == name,
    decreases names.len(),
{
    if names.len() > 0 && names.last() != name {
        lemma_last_index_of(names.drop_last(), name);
    }
}

/// Every planned field lies inside the row: its offset plus the size of its
/// type is at most the row size.
pub proof fn lemma_plan_in_row(
    format: PlyFormat,
    props: Seq<SpecProperty>,
    fields: Seq<Seq<char>>,
    i: int,
)
    requires
        row_size(props) <= usize::MAX,
        spec_seq_plan(format, props, fields) is Some,
        0 <= i < fields.len(),
    ensures
        ({
            let (size, offsets) = spec_seq_plan(format, props, fields).unwrap();
            offsets[i] matches Some((off, t)) ==> off + spec_scalar_size(t) <= size
        }),
{
    let names = prop_names(props);
    lemma_last_index_of(names, fields[i]);
    if let Some(k) = last_index_of(names, fields[i]) {
        assert(names[k] == props[k].name);
        assert(!is_list(props[k]));
        lemma_row_size_prefix(props, k + 1);
        lemma_row_size_prefix(props, k);
        assert(props.take(k + 1).drop_last() =~= props.take(k));
        assert(props.take(k + 1).last() == props[k]);
    }
}

/// A plan exists only for rows of fixed size: none for ASCII, none when any
/// property is a list. When there is one, every property is a scalar, the row
/// size is the sum of their sizes, and each planned field reads a property of
/// its own name, of the planned type, at the offset that the sizes of the
/// properties before it add up to, inside the row.
pub proof fn lemma_plan_fixed_rows(format: PlyFormat, props: Seq<SpecProperty>, fields: Seq<Seq<char>>)
    ensures
        format == PlyFormat::Ascii ==> spec_seq_plan(format, props, fields) is None,
        (exists|k: int| 0 <= k < props.len() && (#[trigger] props[k]).property_type is List)
            ==> spec_seq_plan(format, props, fields) is None,
        spec_seq_plan(format, props, fields) matches Some((n, offs)) ==> {
            &&& forall|k: int| 0 <= k < props.len() ==> (#[trigger] props[k]).property_type is Scalar
            &&& n == row_size(props)
            &&& offs.len() == fields.len()
            &&& row_size(props) <= usize::MAX ==> forall|i: int|
                0 <= i < offs.len() ==> (#[trigger] offs[i] matches Some((off, t)) ==> exists|k: int|
                    0 <= k < props.len() && (#[trigger] props[k]).name == fields[i]
                        && props[k].property_type == PropertyType::Scalar(t) && off == row_size(
                        props.take(k),
                    ) && off + spec_scalar_size(t) <= n)
        },
{
    if exists|k: int| 0 <= k < props.len() && (#[trigger] props[k]).property_type is List {
        let k = choose|k: int| 0 <= k < props.len() && (#[trigger] props[k]).property_type is List;
        assert(is_list(props[k]));
    }
    if let Some((n, offs)) = spec_seq_plan(format, props, fields) {
        assert forall|k: int| 0 <= k < props.len() implies (#[trigger] props[k]).property_type is Scalar by {
            if props[k].property_type is List {
                assert(is_list(props[k]));
            }
        }
        let names = prop_names(props);
        if row_size(props) <= usize::MAX {
            assert forall|i: int|
                0 <= i < offs.len() implies (#[trigger] offs[i] matches Some((off, t)) ==> exists|k: int|
                    0 <= k < props.len() && (#[trigger] props[k]).name == fields[i]
                        && props[k].property_type == PropertyType::Scalar(t) && off == row_size(
                        props.take(k),
                    ) && off + spec_scalar_size(t) <= n) by {
                lemma_last_index_of(names, fields[i]);
                if let Some(k) = last_index_of(names, fields[i]) {
                    assert(names[k] == props[k].name);
                    assert(props[k].property_type is Scalar);
                    lemma_row_size_prefix(props, k + 1);
                    lemma_row_size_prefix(props, k);
                    assert(props.take(k + 1).drop_last() =~= props.take(k));
                    assert(props.take(k + 1).last() == props[k]);
                    assert(offs[i] == plan_entry(props, fields[i]));
                    assert(props[k].name == fields[i]);
                    assert(offs[i] == Some((row_size(props.take(k)) as usize, prop_scalar(props[k]))));
                }
            }
        }
    }
}

} // verus!
