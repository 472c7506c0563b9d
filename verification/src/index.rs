use vstd::prelude::*;

verus! {

/// A secondary index: a name, unique within its table, and the ordered list
/// of field names whose values form the index key tuple.
pub struct IndexView {
    pub name: Seq<char>,
    pub fields: Seq<Seq<char>>,
}

/// A secondary index over a table: its name and the ordered list of indexed
/// field names.
#[derive(Debug, PartialEq)]
pub struct Index {
    name: String,
    fields: Vec<String>,
}

impl Clone for Index {
    fn clone(&self) -> (r: Self)
        ensures
            r@ == self@,
    {
        let name = self.name.clone();
        let fields = self.fields.clone();
        proof {
            assert forall|i: int| 0 <= i < fields@.len() implies fields@[i]@ == self.fields@[i]@
            by {
                assert(vstd::pervasive::cloned::<String>(self.fields@[i], fields@[i]));
            }
            assert(fields.deep_view() =~= self.fields.deep_view());
        }
        Index { name, fields }
    }
}

impl View for Index {
    type V = IndexView;

    closed spec fn view(&self) -> IndexView {
        IndexView { name: self.name@, fields: self.fields.deep_view() }
    }
}

impl DeepView for Index {
    type V = IndexView;

    open spec fn deep_view(&self) -> IndexView {
        self.view()
    }
}

impl Index {
    pub fn new(name: String, fields: Vec<String>) -> (r: Self)
        ensures
            r@.name == name@,
            r@.fields == fields.deep_view(),
    {
        Self { name, fields }
    }

    pub fn name(&self) -> (r: &str)
        ensures
            r@ == self@.name,
    {
        self.name.as_str()
    }

    pub fn fields(&self) -> (r: &Vec<String>)
        ensures
            r.deep_view() == self@.fields,
    {
        &self.fields
    }
}

} // verus!
