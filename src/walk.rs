//! Discovery of the terminal fields of a document's field tree, in level order.
use vstd::prelude::*;
use crate::field::key_kids;
use crate::field::key_ft;
use crate::object::{Dictionary, Document, Object, ObjectId};

verus! {

pub open spec fn key_root() -> Seq<u8> { seq![82u8, 111u8, 111u8, 116u8] }
pub open spec fn key_acroform() -> Seq<u8> { seq![65u8, 99u8, 114u8, 111u8, 70u8, 111u8, 114u8, 109u8] }
pub open spec fn key_fields() -> Seq<u8> { seq![70u8, 105u8, 101u8, 108u8, 100u8, 115u8] }

/// What is wrong with the structure above the field list.
#[derive(Clone, Copy, Debug, PartialEq, Eq, Structural)]
pub enum StructureProblem {
    NoRoot,
    RootNotDictionary,
    NoAcroForm,
    AcroFormNotDictionary,
    NoFields,
    FieldsNotArray,
}

/// Errors that may occur while locating the fields of a document.
#[derive(Clone, Copy, Debug, PartialEq, Eq, Structural)]
pub enum LoadError {
    /// The referenced identity names no node.
    NoSuchReference(ObjectId),
    /// An entry that should have been a reference was something else.
    NotAReference,
    /// The catalog, the form dictionary or its field list is missing or of the wrong kind.
    StructureError(StructureProblem),
}

/// The identity an entry refers to, if it is a reference.
pub open spec fn ref_of(o: Object) -> Option<ObjectId> {
    match o {
        Object::Reference(id) => Some(id),
        _ => None,
    }
}

pub open spec fn refs(a: Seq<Object>) -> Seq<Option<ObjectId>> {
    a.map_values(|o: Object| ref_of(o))
}

/// The field dictionary an entry of the field tree resolves to.
pub open spec fn entry_dict(doc: Document, e: Option<ObjectId>) -> Option<Dictionary> {
    match e {
        Some(id) => doc.dict_node(id),
        None => None,
    }
}

/// What a strict walk reports for an entry that does not resolve.
pub open spec fn entry_error(doc: Document, e: Option<ObjectId>) -> Option<LoadError> {
    match e {
        None => Some(LoadError::NotAReference),
        Some(id) => if doc.node(id) is None {
            Some(LoadError::NoSuchReference(id))
        } else {
            None
        },
    }
}

/// The identity an entry contributes to the field list: its own, if it resolves to a
/// dictionary with a type tag.
pub open spec fn entry_ids(doc: Document, e: Option<ObjectId>) -> Seq<ObjectId> {
    match entry_dict(doc, e) {
        Some(d) => if d.lookup(key_ft()) is Some {
            seq![e->0]
        } else {
            Seq::empty()
        },
        None => Seq::empty(),
    }
}

/// The entries an entry hands to the next level: its kids, if it resolves to a dictionary
/// with a kids array.
pub open spec fn entry_kids(doc: Document, e: Option<ObjectId>) -> Seq<Option<ObjectId>> {
    match entry_dict(doc, e) {
        Some(d) => match d.lookup(key_kids()) {
            Some(Object::Array(a)) => refs(a@),
            _ => Seq::empty(),
        },
        None => Seq::empty(),
    }
}

pub open spec fn level_ids(doc: Document, l: Seq<Option<ObjectId>>) -> Seq<ObjectId>
    decreases l.len(),
{
    if l.len() == 0 {
        Seq::empty()
    } else {
        level_ids(doc, l.drop_last()) + entry_ids(doc, l.last())
    }
}

pub open spec fn level_kids(doc: Document, l: Seq<Option<ObjectId>>) -> Seq<Option<ObjectId>>
    decreases l.len(),
{
    if l.len() == 0 {
        Seq::empty()
    } else {
        level_kids(doc, l.drop_last()) + entry_kids(doc, l.last())
    }
}

/// The first entry of a level that does not resolve, as a strict walk reports it.
pub open spec fn level_error(doc: Document, l: Seq<Option<ObjectId>>) -> Option<LoadError>
    decreases l.len(),
{
    if l.len() == 0 {
        None
    } else {
        match level_error(doc, l.drop_last()) {
            Some(e) => Some(e),
            None => entry_error(doc, l.last()),
        }
    }
}

/// The terminal fields found in `depth` levels of the tree from level `l`, in level order;
/// entries that do not resolve are skipped.
pub open spec fn walk(doc: Document, l: Seq<Option<ObjectId>>, depth: nat) -> Seq<ObjectId>
    decreases depth,
{
    if depth == 0 {
        Seq::empty()
    } else {
        level_ids(doc, l) + walk(doc, level_kids(doc, l), (depth - 1) as nat)
    }
}

/// The first entry, in level order, that does not resolve within `depth` levels.
pub open spec fn walk_error(doc: Document, l: Seq<Option<ObjectId>>, depth: nat) -> Option<LoadError>
    decreases depth,
{
    if depth == 0 {
        None
    } else {
        match level_error(doc, l) {
            Some(e) => Some(e),
            None => walk_error(doc, level_kids(doc, l), (depth - 1) as nat),
        }
    }
}

/// How many levels a walk descends: each level of a field tree without cycles holds a node
/// of its own, so a deeper walk would only go round a cycle.
pub open spec fn walk_depth(doc: Document) -> nat {
    doc.objects@.len()
}

/// The form dictionary of the document, reached directly or through a reference.
pub open spec fn acroform_of(doc: Document) -> Result<Dictionary, LoadError> {
    match doc.trailer.lookup(key_root()) {
        None => Err(LoadError::StructureError(StructureProblem::NoRoot)),
        Some(Object::Reference(rid)) => match doc.node(rid) {
            None => Err(LoadError::NoSuchReference(rid)),
            Some(Object::Dictionary(root)) => match root.lookup(key_acroform()) {
                None => Err(LoadError::StructureError(StructureProblem::NoAcroForm)),
                Some(Object::Dictionary(ad)) => Ok(ad),
                Some(Object::Reference(aid)) => match doc.dict_node(aid) {
                    Some(ad) => Ok(ad),
                    None => Err(LoadError::StructureError(StructureProblem::AcroFormNotDictionary)),
                },
                Some(_) => Err(LoadError::StructureError(StructureProblem::AcroFormNotDictionary)),
            },
            Some(_) => Err(LoadError::StructureError(StructureProblem::RootNotDictionary)),
        },
        Some(_) => Err(LoadError::StructureError(StructureProblem::RootNotDictionary)),
    }
}

/// The top level of the field tree, from the field array of the form dictionary, reached
/// directly or through a reference.
pub open spec fn top_level(doc: Document) -> Result<Seq<Option<ObjectId>>, LoadError> {
    match acroform_of(doc) {
        Err(e) => Err(e),
        Ok(ad) => match ad.lookup(key_fields()) {
            None => Err(LoadError::StructureError(StructureProblem::NoFields)),
            Some(Object::Array(a)) => Ok(refs(a@)),
            Some(Object::Reference(fid)) => match doc.node(fid) {
                None => Err(LoadError::NoSuchReference(fid)),
                Some(Object::Array(a)) => Ok(refs(a@)),
                Some(_) => Err(LoadError::StructureError(StructureProblem::FieldsNotArray)),
            },
            Some(_) => Err(LoadError::StructureError(StructureProblem::FieldsNotArray)),
        },
    }
}

/// The entries of an array as the field tree sees them.
fn refs_of(a: &Vec<Object>) -> (r: Vec<Option<ObjectId>>)
    ensures
        r@ == refs(a@),
{
    let mut r: Vec<Option<ObjectId>> = Vec::new();
    let mut i: usize = 0;
    while i < a.len()
        invariant
            i <= a@.len(),
            r@ == refs(a@.subrange(0, i as int)),
        decreases a@.len() - i,
    {
        let e = match &a[i] {
            Object::Reference(id) => Some(*id),
            _ => None,
        };
        r.push(e);
        i = i + 1;
        assert(r@ =~= refs(a@.subrange(0, i as int)));
    }
    assert(a@.subrange(0, a@.len() as int) =~= a@);
    r
}

/// The top level of the field tree of `doc`.
pub fn top_level_of(doc: &Document) -> (r: Result<Vec<Option<ObjectId>>, LoadError>)
    ensures
        r matches Ok(l) ==> top_level(*doc) == Ok::<Seq<Option<ObjectId>>, LoadError>(l@),
        r matches Err(e) ==> top_level(*doc) == Err::<Seq<Option<ObjectId>>, LoadError>(e),
{
    let kr: [u8; 4] = [82, 111, 111, 116];
    let ka: [u8; 8] = [65, 99, 114, 111, 70, 111, 114, 109];
    let kf: [u8; 6] = [70, 105, 101, 108, 100, 115];
    assert(kr@ == key_root() && ka@ == key_acroform() && kf@ == key_fields());
    let root = match doc.trailer.get(kr.as_slice()) {
        None => return Err(LoadError::StructureError(StructureProblem::NoRoot)),
        Some(Object::Reference(rid)) => match doc.get_object(*rid) {
            None => return Err(LoadError::NoSuchReference(*rid)),
            Some(Object::Dictionary(root)) => root,
            Some(_) => return Err(LoadError::StructureError(StructureProblem::RootNotDictionary)),
        },
        Some(_) => return Err(LoadError::StructureError(StructureProblem::RootNotDictionary)),
    };
    let acroform = match root.get(ka.as_slice()) {
        None => return Err(LoadError::StructureError(StructureProblem::NoAcroForm)),
        Some(Object::Dictionary(ad)) => ad,
        Some(Object::Reference(aid)) => match doc.get_object(*aid) {
            Some(Object::Dictionary(ad)) => ad,
            _ => return Err(LoadError::StructureError(StructureProblem::AcroFormNotDictionary)),
        },
        Some(_) => return Err(LoadError::StructureError(StructureProblem::AcroFormNotDictionary)),
    };
    match acroform.get(kf.as_slice()) {
        None => Err(LoadError::StructureError(StructureProblem::NoFields)),
        Some(Object::Array(a)) => Ok(refs_of(a)),
        Some(Object::Reference(fid)) => match doc.get_object(*fid) {
            None => Err(LoadError::NoSuchReference(*fid)),
            Some(Object::Array(a)) => Ok(refs_of(a)),
            Some(_) => Err(LoadError::StructureError(StructureProblem::FieldsNotArray)),
        },
        Some(_) => Err(LoadError::StructureError(StructureProblem::FieldsNotArray)),
    }
}

/// Walks `depth` levels of the field tree from level `l`. With `strict`, the first entry that
/// does not resolve ends the walk with its error; without, such entries are skipped.
pub fn walk_levels(doc: &Document, l: Vec<Option<ObjectId>>, depth: usize, strict: bool) -> (r: Result<Vec<ObjectId>, LoadError>)
    ensures
        strict && walk_error(*doc, l@, depth as nat) is Some ==> r == Err::<Vec<ObjectId>, LoadError>(walk_error(*doc, l@, depth as nat)->0),
        !(strict && walk_error(*doc, l@, depth as nat) is Some) ==> (r matches Ok(ids) && ids@ == walk(*doc, l@, depth as nat)),
{
    let kft: [u8; 2] = [70, 84];
    let kk: [u8; 4] = [75, 105, 100, 115];
    assert(kft@ == key_ft() && kk@ == key_kids());
    let mut found: Vec<ObjectId> = Vec::new();
    let mut level = l;
    let mut d: usize = depth;
    while d > 0
        invariant
            kft@ == key_ft(),
            kk@ == key_kids(),
            d <= depth,
            walk(*doc, l@, depth as nat) == found@ + walk(*doc, level@, d as nat),
            strict ==> walk_error(*doc, l@, depth as nat) == walk_error(*doc, level@, d as nat),
        decreases d,
    {
        let mut next: Vec<Option<ObjectId>> = Vec::new();
        let ghost found0 = found@;
        let mut i: usize = 0;
        while i < level.len()
            invariant
                kft@ == key_ft(),
                kk@ == key_kids(),
                i <= level@.len(),
                0 < d <= depth,
                strict ==> walk_error(*doc, l@, depth as nat) == walk_error(*doc, level@, d as nat),
                walk(*doc, l@, depth as nat) == found0 + walk(*doc, level@, d as nat),
                found@ == found0 + level_ids(*doc, level@.subrange(0, i as int)),
                next@ == level_kids(*doc, level@.subrange(0, i as int)),
                strict ==> level_error(*doc, level@.subrange(0, i as int)) is None,
            decreases level@.len() - i,
        {
            let ghost pre = level@.subrange(0, i as int);
            let ghost nx = level@.subrange(0, i as int + 1);
            assert(nx.drop_last() =~= pre);
            assert(nx.last() == level@[i as int]);
            match level[i] {
                None => {
                    if strict {
                        proof {
                            assert(entry_error(*doc, level@[i as int]) == Some(LoadError::NotAReference));
                            assert(level_error(*doc, nx) == Some(LoadError::NotAReference));
                            lemma_level_error_extends(*doc, level@, i as int + 1, level@.len() as int);
                            assert(level@.subrange(0, level@.len() as int) =~= level@);
                        }
                        return Err(LoadError::NotAReference);
                    }
                },
                Some(id) => match doc.get_object(id) {
                    None => {
                        if strict {
                            proof {
                                lemma_level_error_extends(*doc, level@, i as int + 1, level@.len() as int);
                                assert(level@.subrange(0, level@.len() as int) =~= level@);
                            }
                            return Err(LoadError::NoSuchReference(id));
                        }
                    },
                    Some(Object::Dictionary(fd)) => {
                        if fd.get(kft.as_slice()).is_some() {
                            found.push(id);
                        }
                        match fd.get(kk.as_slice()) {
                            Some(Object::Array(kids)) => {
                                let mut more = refs_of(kids);
                                next.append(&mut more);
                            },
                            _ => {},
                        }
                    },
                    Some(_) => {},
                },
            }
            i = i + 1;
            proof {
                assert(found@ =~= found0 + level_ids(*doc, level@.subrange(0, i as int)));
                assert(next@ =~= level_kids(*doc, level@.subrange(0, i as int)));
            }
        }
        proof {
            assert(level@.subrange(0, level@.len() as int) =~= level@);
            assert(found@ + walk(*doc, next@, (d - 1) as nat) =~= found0 + walk(*doc, level@, d as nat));
        }
        level = next;
        d = d - 1;
    }
    Ok(found)
}

/// Once a prefix of a level holds an entry that does not resolve, every longer prefix
/// reports that same entry.
pub proof fn lemma_level_error_extends(doc: Document, l: Seq<Option<ObjectId>>, n: int, m: int)
    requires
        0 <= n <= m <= l.len(),
        level_error(doc, l.subrange(0, n)) is Some,
    ensures
        level_error(doc, l.subrange(0, m)) == level_error(doc, l.subrange(0, n)),
    decreases m - n,
{
    if n < m {
        lemma_level_error_extends(doc, l, n, m - 1);
        assert(l.subrange(0, m).drop_last() =~= l.subrange(0, m - 1));
    }
}

} // verus!
