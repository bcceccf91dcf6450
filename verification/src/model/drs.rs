use vstd::prelude::*;

verus! {

/// A dependency relation: a call from one code unit to another. The
/// identifier is the twelve bytes of its database key, once it has one.
#[derive(Debug)]
pub struct Dr {
    pub id: Option<[u8; 12]>,
    pub source: String,
    pub target: String,
    pub project_id: String,
}

/// A dependency relation as plain values.
pub struct DrView {
    pub id: Option<Seq<u8>>,
    pub source: Seq<char>,
    pub target: Seq<char>,
    pub project_id: Seq<char>,
}

impl View for Dr {
    type V = DrView;

    open spec fn view(&self) -> DrView {
        DrView {
            id: match self.id {
                Some(bytes) => Some(bytes@),
                None => None,
            },
            source: self.source@,
            target: self.target@,
            project_id: self.project_id@,
        }
    }
}

} // verus!
