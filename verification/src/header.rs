//! The header fields of a response: a name and the raw values sent under it.
//!
//! Names are told apart without regard to the case of ASCII letters. A list of
//! fields is read as a mapping: the values of a name are those of every field
//! that bears it, in the order of the list.

use vstd::prelude::*;
use vstd::utf8::*;

verus! {

/// One header field.
#[derive(Debug, PartialEq, Eq)]
pub struct HeaderField {
    pub name: String,
    pub values: Vec<Vec<u8>>,
}

/// What a [`HeaderField`] stands for in contracts.
pub struct FieldView {
    pub name: Seq<char>,
    pub values: Seq<Seq<u8>>,
}

/// The raw values of a list, in its order.
pub open spec fn values_view(values: Seq<Vec<u8>>) -> Seq<Seq<u8>> {
    values.map_values(|v: Vec<u8>| v@)
}

impl View for HeaderField {
    type V = FieldView;

    open spec fn view(&self) -> FieldView {
        FieldView { name: self.name@, values: values_view(self.values@) }
    }
}

/// The fields of a list, in its order.
pub open spec fn fields_view(fields: Seq<HeaderField>) -> Seq<FieldView> {
    fields.map_values(|f: HeaderField| f@)
}

/// The byte with an ASCII capital letter turned into its small letter.
pub open spec fn lower(b: u8) -> u8 {
    if 65 <= b <= 90 {
        (b + 32) as u8
    } else {
        b
    }
}

/// The bytes of a name in UTF-8, ASCII capitals turned into small letters.
pub open spec fn folded(name: Seq<char>) -> Seq<u8> {
    encode_utf8(name).map_values(|b: u8| lower(b))
}

/// Whether two names are one header name: equal but for the case of ASCII
/// letters.
pub open spec fn same_name(a: Seq<char>, b: Seq<char>) -> bool {
    folded(a) == folded(b)
}

/// All values that the fields hold under a name: those of each field that
/// bears it, in the order of the fields.
pub open spec fn values_of(fields: Seq<FieldView>, name: Seq<char>) -> Seq<Seq<u8>>
    decreases fields.len(),
{
    if fields.len() == 0 {
        Seq::empty()
    } else if same_name(fields.last().name, name) {
        values_of(fields.drop_last(), name) + fields.last().values
    } else {
        values_of(fields.drop_last(), name)
    }
}

/// The view of a list with one more value is the view of the list with one
/// more view.
proof fn lemma_values_view_push(values: Seq<Vec<u8>>, value: Vec<u8>)
    ensures
        values_view(values.push(value)) == values_view(values).push(value@),
{
    assert(values_view(values.push(value)) =~= values_view(values).push(value@));
}

/// The small letter of an ASCII capital, any other byte as it is.
pub fn lower_byte(b: u8) -> (out: u8)
    ensures
        out == lower(b),
{
    if 65 <= b && b <= 90 {
        b + 32
    } else {
        b
    }
}

/// Whether two names are one header name.
pub fn names_match(a: &str, b: &str) -> (same: bool)
    ensures
        same == same_name(a@, b@),
{
    let x = a.as_bytes();
    let y = b.as_bytes();
    if x.len() != y.len() {
        assert(folded(a@).len() != folded(b@).len());
        return false;
    }
    let mut i: usize = 0;
    while i < x.len()
        invariant
            i <= x.len(),
            x.len() == y.len(),
            x@ == encode_utf8(a@),
            y@ == encode_utf8(b@),
            forall|k: int| 0 <= k < i ==> lower(x@[k]) == lower(y@[k]),
        decreases x.len() - i,
    {
        if lower_byte(x[i]) != lower_byte(y[i]) {
            assert(folded(a@)[i as int] != folded(b@)[i as int]);
            return false;
        }
        i += 1;
    }
    assert(folded(a@) =~= folded(b@));
    true
}

/// A copy of a list of raw values.
pub fn copy_values(values: &Vec<Vec<u8>>) -> (out: Vec<Vec<u8>>)
    ensures
        values_view(out@) == values_view(values@),
{
    let mut out: Vec<Vec<u8>> = Vec::new();
    let mut i: usize = 0;
    while i < values.len()
        invariant
            i <= values.len(),
            values_view(out@) == values_view(values@).take(i as int),
        decreases values.len() - i,
    {
        let ghost held = out@;
        let one = values[i].clone();
        assert(one@ =~= values@[i as int]@);
        let ghost added = one;
        out.push(one);
        proof {
            lemma_values_view_push(held, added);
            assert(values_view(out@) =~= values_view(values@).take(i + 1));
        }
        i += 1;
    }
    assert(values_view(values@).take(values.len() as int) == values_view(values@));
    out
}

impl Clone for HeaderField {
    fn clone(&self) -> (out: HeaderField)
        ensures
            out@ == self@,
    {
        HeaderField { name: self.name.clone(), values: copy_values(&self.values) }
    }
}

/// All values that the fields hold under a name.
pub fn raw_values(fields: &Vec<HeaderField>, name: &str) -> (out: Vec<Vec<u8>>)
    ensures
        values_view(out@) == values_of(fields_view(fields@), name@),
{
    let ghost all = fields_view(fields@);
    let mut out: Vec<Vec<u8>> = Vec::new();
    let mut i: usize = 0;
    while i < fields.len()
        invariant
            i <= fields.len(),
            all == fields_view(fields@),
            values_view(out@) == values_of(all.take(i as int), name@),
        decreases fields.len() - i,
    {
        let ghost before = values_view(out@);
        assert(all.take(i + 1).drop_last() == all.take(i as int));
        assert(all.take(i + 1).last() == fields@[i as int]@);
        if names_match(fields[i].name.as_str(), name) {
            let mut j: usize = 0;
            while j < fields[i].values.len()
                invariant
                    i < fields.len(),
                    j <= fields[i as int].values.len(),
                    values_view(out@) == before + values_view(fields[i as int].values@).take(
                        j as int,
                    ),
                decreases fields[i as int].values.len() - j,
            {
                let ghost held = out@;
                let one = fields[i].values[j].clone();
                assert(one@ =~= fields[i as int].values@[j as int]@);
                let ghost added = one;
                out.push(one);
                proof {
                    lemma_values_view_push(held, added);
                    assert(values_view(out@) =~= before + values_view(
                        fields[i as int].values@,
                    ).take(j + 1));
                }
                j += 1;
            }
            assert(values_view(fields[i as int].values@).take(
                fields[i as int].values.len() as int,
            ) == values_view(fields[i as int].values@));
        }
        i += 1;
    }
    assert(all.take(fields.len() as int) == all);
    out
}

} // verus!
