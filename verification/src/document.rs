//! The serializable project data: a pure value type with four top-level
//! sections. The core reads the sections only to compare them; their
//! entries are opaque identifiers.

use vstd::prelude::*;

verus! {

/// Mathematical model of a [`Document`]: one sequence per top-level section.
#[verifier::ext_equal]
pub ghost struct DocView {
    pub sources: Seq<u32>,
    pub metatiles: Seq<u32>,
    pub metatilesets: Seq<u32>,
    pub maps: Seq<u32>,
}

impl DocView {
    /// The model of a default-constructed document: every section empty.
    pub open spec fn empty() -> DocView {
        DocView {
            sources: Seq::empty(),
            metatiles: Seq::empty(),
            metatilesets: Seq::empty(),
            maps: Seq::empty(),
        }
    }
}

/// The in-memory project data. Entries of each section are identifiers
/// of the named assets; the core never interprets them beyond equality.
#[derive(Debug, PartialEq, Eq)]
pub struct Document {
    pub sources: Vec<u32>,
    pub metatiles: Vec<u32>,
    pub metatilesets: Vec<u32>,
    pub maps: Vec<u32>,
}

impl View for Document {
    type V = DocView;

    open spec fn view(&self) -> DocView {
        DocView {
            sources: self.sources@,
            metatiles: self.metatiles@,
            metatilesets: self.metatilesets@,
            maps: self.maps@,
        }
    }
}

impl Default for Document {
    /// A freshly constructed document has every section empty.
    fn default() -> (d: Document)
        ensures
            d@ == DocView::empty(),
    {
        let d = Document {
            sources: Vec::new(),
            metatiles: Vec::new(),
            metatilesets: Vec::new(),
            maps: Vec::new(),
        };
        proof {
            assert(d@ =~= DocView::empty());
        }
        d
    }
}

/// Copies a section, element for element.
fn clone_section(v: &Vec<u32>) -> (r: Vec<u32>)
    ensures
        r@ == v@,
{
    let r = v.clone();
    proof {
        assert(r@ =~= v@);
    }
    r
}

/// Decides equality of two sections.
pub(crate) fn section_eq(a: &Vec<u32>, b: &Vec<u32>) -> (r: bool)
    ensures
        r == (a@ == b@),
{
    if a.len() != b.len() {
        proof {
            assert(a@ != b@);
        }
        return false;
    }
    let mut i: usize = 0;
    while i < a.len()
        invariant
            i <= a.len(),
            a@.len() == b@.len(),
            forall|k: int| 0 <= k < i ==> a@[k] == b@[k],
        decreases a.len() - i,
    {
        if a[i] != b[i] {
            return false;
        }
        i += 1;
    }
    proof {
        assert(a@ =~= b@);
    }
    true
}

impl Document {
    /// A deep copy whose model equals this document's model.
    pub fn duplicate(&self) -> (r: Document)
        ensures
            r@ == self@,
    {
        let r = Document {
            sources: clone_section(&self.sources),
            metatiles: clone_section(&self.metatiles),
            metatilesets: clone_section(&self.metatilesets),
            maps: clone_section(&self.maps),
        };
        proof {
            assert(r@ =~= self@);
        }
        r
    }

    /// Decides whether two documents hold the same data.
    pub fn same_as(&self, other: &Document) -> (r: bool)
        ensures
            r == (self@ == other@),
    {
        let r = section_eq(&self.sources, &other.sources)
            && section_eq(&self.metatiles, &other.metatiles)
            && section_eq(&self.metatilesets, &other.metatilesets)
            && section_eq(&self.maps, &other.maps);
        proof {
            if r {
                assert(self@ =~= other@);
            }
        }
        r
    }
}

} // verus!
