use vstd::prelude::*;

verus! {

/// A label that can be attached to todos.
#[derive(Debug, Clone, PartialEq, Eq)]
pub struct Label {
    pub id: i32,
    pub name: String,
}

/// The mathematical model of a [`Label`].
pub struct LabelView {
    pub id: i32,
    pub name: Seq<char>,
}

impl View for Label {
    type V = LabelView;

    open spec fn view(&self) -> LabelView {
        LabelView { id: self.id, name: self.name@ }
    }
}

/// The view of a sequence of labels, element by element.
pub open spec fn labels_view(labels: Seq<Label>) -> Seq<LabelView> {
    labels.map_values(|l: Label| l@)
}

impl Label {
    /// A label with the given id and name.
    pub fn new(id: i32, name: String) -> (l: Label)
        ensures
            l.id == id,
            l.name@ == name@,
    {
        Label { id, name }
    }

    /// A copy of this label.
    pub fn duplicate(&self) -> (l: Label)
        ensures
            l@ == self@,
    {
        Label { id: self.id, name: self.name.clone() }
    }
}

/// A copy of a list of labels, in the same order.
pub fn duplicate_labels(labels: &Vec<Label>) -> (out: Vec<Label>)
    ensures
        labels_view(out@) == labels_view(labels@),
{
    let mut out: Vec<Label> = Vec::new();
    let mut i: usize = 0;
    while i < labels.len()
        invariant
            i <= labels.len(),
            labels_view(out@) == labels_view(labels@.take(i as int)),
        decreases labels.len() - i,
    {
        let l = labels[i].duplicate();
        let ghost before = out@;
        out.push(l);
        proof {
            assert(labels@.take(i as int + 1) =~= labels@.take(i as int).push(labels@[i as int]));
            assert(labels_view(out@) =~= labels_view(before).push(l@));
            assert(labels_view(labels@.take(i as int + 1)) =~= labels_view(
                labels@.take(i as int),
            ).push(labels@[i as int]@));
        }
        i = i + 1;
    }
    proof {
        assert(labels@.take(labels.len() as int) =~= labels@);
    }
    out
}

} // verus!
