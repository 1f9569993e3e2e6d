//! The plan of a variant: its fields sorted into the four passes over a node.

use vstd::prelude::*;
use crate::descriptor::{fields_view, FieldDescriptor, FieldView, SourceKind};
use crate::model::{pass_filter, pass_positions, positions};

verus! {

/// How the fields of one variant are read: the positions of its fields in
/// four lists, one for each pass over the node.
pub struct FieldPlan<'a> {
    pub(crate) fields: &'a Vec<FieldDescriptor>,
    pub(crate) flatten_fields: Vec<usize>,
    pub(crate) text_fields: Vec<usize>,
    pub(crate) attribute_fields: Vec<usize>,
    pub(crate) child_fields: Vec<usize>,
}

/// The mathematical content of a `FieldPlan`.
pub ghost struct FieldPlanView {
    pub fields: Seq<FieldView>,
    pub flatten_fields: Seq<int>,
    pub text_fields: Seq<int>,
    pub attribute_fields: Seq<int>,
    pub child_fields: Seq<int>,
}

/// A list of positions as mathematical integers.
pub open spec fn as_ints(list: Seq<usize>) -> Seq<int> {
    list.map_values(|p: usize| p as int)
}

impl<'a> View for FieldPlan<'a> {
    type V = FieldPlanView;

    closed spec fn view(&self) -> FieldPlanView {
        FieldPlanView {
            fields: fields_view(self.fields),
            flatten_fields: as_ints(self.flatten_fields@),
            text_fields: as_ints(self.text_fields@),
            attribute_fields: as_ints(self.attribute_fields@),
            child_fields: as_ints(self.child_fields@),
        }
    }
}

/// The plan of a list of fields: each field's position stands in the list of
/// its source kind, and each list is in declaration order.
pub open spec fn plan_of(fields: Seq<FieldView>) -> FieldPlanView {
    FieldPlanView {
        fields,
        flatten_fields: pass_positions(fields, 0),
        text_fields: pass_positions(fields, 1),
        attribute_fields: pass_positions(fields, 2),
        child_fields: pass_positions(fields, 3),
    }
}

impl FieldPlanView {
    /// Whether this is the plan of its own fields.
    pub open spec fn wf(self) -> bool {
        self == plan_of(self.fields)
    }

    /// The list of one pass.
    pub open spec fn pass(self, pass: int) -> Seq<int> {
        if pass == 0 {
            self.flatten_fields
        } else if pass == 1 {
            self.text_fields
        } else if pass == 2 {
            self.attribute_fields
        } else {
            self.child_fields
        }
    }
}

impl<'a> FieldPlan<'a> {
    /// Every plan is the plan of its own fields.
    #[verifier::type_invariant]
    closed spec fn is_plan(&self) -> bool {
        self@.wf()
    }

    /// The list of fields that the plan was built for.
    pub closed spec fn described(&self) -> &'a Vec<FieldDescriptor> {
        self.fields
    }

    /// The fields that the plan was built for.
    pub fn fields(&self) -> (fields: &'a Vec<FieldDescriptor>)
        ensures
            fields == self.described(),
            fields_view(fields) == self@.fields,
            self@.wf(),
    {
        proof {
            use_type_invariant(self);
        }
        self.fields
    }

    /// The positions of the flatten fields, in declaration order.
    pub fn flatten_fields(&self) -> (list: &Vec<usize>)
        ensures
            as_ints(list@) == self@.flatten_fields,
    {
        &self.flatten_fields
    }

    /// The positions of the text fields, in declaration order.
    pub fn text_fields(&self) -> (list: &Vec<usize>)
        ensures
            as_ints(list@) == self@.text_fields,
    {
        &self.text_fields
    }

    /// The positions of the attribute fields, in declaration order.
    pub fn attribute_fields(&self) -> (list: &Vec<usize>)
        ensures
            as_ints(list@) == self@.attribute_fields,
    {
        &self.attribute_fields
    }

    /// The positions of the child fields, in declaration order.
    pub fn child_fields(&self) -> (list: &Vec<usize>)
        ensures
            as_ints(list@) == self@.child_fields,
    {
        &self.child_fields
    }
}

/// Sorts the fields of a variant into the four passes. This depends on the
/// fields alone, never on a node.
pub fn build_plan<'a>(fields: &'a Vec<FieldDescriptor>) -> (plan: FieldPlan<'a>)
    ensures
        plan.described() == fields,
        plan@ == plan_of(fields_view(fields)),
{
    let mut flatten_fields: Vec<usize> = Vec::new();
    let mut text_fields: Vec<usize> = Vec::new();
    let mut attribute_fields: Vec<usize> = Vec::new();
    let mut child_fields: Vec<usize> = Vec::new();
    let ghost views = fields_view(fields);
    let ghost all = positions(views.len());
    let n: usize = fields.len();
    let mut i: usize = 0;
    proof {
        reveal(Seq::filter);
        assert(all.take(0).filter(pass_filter(views, 0)) == Seq::<int>::empty());
        assert(all.take(0).filter(pass_filter(views, 1)) == Seq::<int>::empty());
        assert(all.take(0).filter(pass_filter(views, 2)) == Seq::<int>::empty());
        assert(all.take(0).filter(pass_filter(views, 3)) == Seq::<int>::empty());
        assert(as_ints(flatten_fields@) == Seq::<int>::empty());
        assert(as_ints(text_fields@) == Seq::<int>::empty());
        assert(as_ints(attribute_fields@) == Seq::<int>::empty());
        assert(as_ints(child_fields@) == Seq::<int>::empty());
    }
    while i < n
        invariant
            i <= n,
            n == fields@.len(),
            views == fields_view(fields),
            all == positions(views.len()),
            as_ints(flatten_fields@) == all.take(i as int).filter(pass_filter(views, 0)),
            as_ints(text_fields@) == all.take(i as int).filter(pass_filter(views, 1)),
            as_ints(attribute_fields@) == all.take(i as int).filter(pass_filter(views, 2)),
            as_ints(child_fields@) == all.take(i as int).filter(pass_filter(views, 3)),
        decreases n - i,
    {
        proof {
            assert(all.take(i + 1) == all.take(i as int).push(i as int));
            all.take(i as int).lemma_filter_push(i as int, pass_filter(views, 0));
            all.take(i as int).lemma_filter_push(i as int, pass_filter(views, 1));
            all.take(i as int).lemma_filter_push(i as int, pass_filter(views, 2));
            all.take(i as int).lemma_filter_push(i as int, pass_filter(views, 3));
        }
        match &fields[i].source {
            SourceKind::Flatten => {
                assert(as_ints(flatten_fields@.push(i)) == as_ints(flatten_fields@).push(i as int));
                flatten_fields.push(i);
            },
            SourceKind::Text => {
                assert(as_ints(text_fields@.push(i)) == as_ints(text_fields@).push(i as int));
                text_fields.push(i);
            },
            SourceKind::Attribute(_) => {
                assert(as_ints(attribute_fields@.push(i)) == as_ints(attribute_fields@).push(
                    i as int,
                ));
                attribute_fields.push(i);
            },
            SourceKind::Child(_, _) => {
                assert(as_ints(child_fields@.push(i)) == as_ints(child_fields@).push(i as int));
                child_fields.push(i);
            },
        }
        i += 1;
    }
    assert(all.take(n as int) == all);
    FieldPlan { fields, flatten_fields, text_fields, attribute_fields, child_fields }
}

} // verus!
