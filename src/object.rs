//! The document object graph: an arena of nodes keyed by identity.
use vstd::prelude::*;

verus! {

/// Identity of a node in the document graph: object number and generation.
#[derive(Clone, Copy, Debug, PartialEq, Eq, Structural)]
pub struct ObjectId {
    pub id: u32,
    pub gen: u16,
}

/// How a string node was written.
#[derive(Clone, Copy, Debug, PartialEq, Eq, Structural)]
pub enum StringFormat {
    Literal,
    Hexadecimal,
}

/// A node of the document graph. Text is kept as raw bytes; a real number is kept in
/// thousandths.
#[derive(Debug)]
pub enum Object {
    Null,
    Boolean(bool),
    Integer(i64),
    Real(i64),
    Name(Vec<u8>),
    String(Vec<u8>, StringFormat),
    Array(Vec<Object>),
    Dictionary(Dictionary),
    Stream(Stream),
    Reference(ObjectId),
}

/// A dictionary: keys with values, in the order in which they were written.
#[derive(Debug)]
pub struct Dictionary {
    pub entries: Vec<(Vec<u8>, Object)>,
}

/// One drawing instruction: an operator name and its operands.
#[derive(Debug)]
pub struct Operation {
    pub operator: Vec<u8>,
    pub operands: Vec<Object>,
}

/// A stream node: its dictionary, its stored bytes and, where those bytes decode as drawing
/// instructions, the decoded instructions. `rewritten` marks a stream whose instructions were
/// replaced and must be encoded again before the bytes are written out.
#[derive(Debug)]
pub struct Stream {
    pub dict: Dictionary,
    pub content: Vec<u8>,
    pub operations: Option<Vec<Operation>>,
    pub rewritten: bool,
}

/// The value stored under `key` in `entries` from position `i` on: the first match wins.
pub open spec fn lookup_from(entries: Seq<(Vec<u8>, Object)>, key: Seq<u8>, i: int) -> Option<Object>
    decreases entries.len() - i,
{
    if i < 0 || i >= entries.len() {
        None
    } else if entries[i].0@ == key {
        Some(entries[i].1)
    } else {
        lookup_from(entries, key, i + 1)
    }
}

impl Dictionary {
    /// The value of `key` in this dictionary, if any.
    pub open spec fn lookup(self, key: Seq<u8>) -> Option<Object> {
        lookup_from(self.entries@, key, 0)
    }

    pub fn new() -> (r: Dictionary)
        ensures
            r.entries@.len() == 0,
    {
        Dictionary { entries: Vec::new() }
    }

    /// The value of `key`, if the dictionary has it.
    pub fn get(&self, key: &[u8]) -> (r: Option<&Object>)
        ensures
            r matches Some(v) ==> self.lookup(key@) == Some(*v),
            r is None ==> self.lookup(key@) is None,
    {
        let mut i: usize = 0;
        while i < self.entries.len()
            invariant
                i <= self.entries@.len(),
                lookup_from(self.entries@, key@, 0) == lookup_from(self.entries@, key@, i as int),
            decreases self.entries@.len() - i,
        {
            if bytes_eq(self.entries[i].0.as_slice(), key) {
                return Some(&self.entries[i].1);
            }
            i = i + 1;
        }
        None
    }
}

/// Byte-wise equality of two byte strings.
pub fn bytes_eq(a: &[u8], b: &[u8]) -> (r: bool)
    ensures
        r == (a@ == b@),
{
    if a.len() != b.len() {
        return false;
    }
    let mut i: usize = 0;
    while i < a.len()
        invariant
            a@.len() == b@.len(),
            i <= a@.len(),
            forall|j: int| 0 <= j < i ==> a@[j] == b@[j],
        decreases a@.len() - i,
    {
        if a[i] != b[i] {
            return false;
        }
        i = i + 1;
    }
    assert(a@ =~= b@);
    true
}


/// Entries between `a` and `b` without key `key` do not change its lookup.
pub proof fn lemma_lookup_skip(entries: Seq<(Vec<u8>, Object)>, key: Seq<u8>, a: int, b: int)
    requires
        0 <= a <= b <= entries.len(),
        forall|j: int| a <= j < b ==> entries[j].0@ != key,
    ensures
        lookup_from(entries, key, a) == lookup_from(entries, key, b),
    decreases b - a,
{
    if a < b {
        lemma_lookup_skip(entries, key, a + 1, b);
    }
}

/// Two entry lists that agree on every key equal to `key` and on its value from `i` on give
/// the same lookup of `key` from `i`.
pub proof fn lemma_lookup_agree(
    s: Seq<(Vec<u8>, Object)>,
    t: Seq<(Vec<u8>, Object)>,
    key: Seq<u8>,
    i: int,
)
    requires
        0 <= i,
        s.len() == t.len(),
        forall|j: int| i <= j < s.len() ==> (s[j].0@ == key) == (t[j].0@ == key),
        forall|j: int| i <= j < s.len() && s[j].0@ == key ==> s[j].1 == t[j].1,
    ensures
        lookup_from(s, key, i) == lookup_from(t, key, i),
    decreases s.len() - i,
{
    if i < s.len() {
        lemma_lookup_agree(s, t, key, i + 1);
    }
}

/// Appending an entry whose key differs from `key` leaves the lookup of `key` unchanged.
pub proof fn lemma_lookup_push_other(
    s: Seq<(Vec<u8>, Object)>,
    e: (Vec<u8>, Object),
    key: Seq<u8>,
    i: int,
)
    requires
        0 <= i <= s.len(),
        e.0@ != key,
    ensures
        lookup_from(s.push(e), key, i) == lookup_from(s, key, i),
    decreases s.len() - i,
{
    if i < s.len() {
        lemma_lookup_push_other(s, e, key, i + 1);
    } else {
        assert(lookup_from(s.push(e), key, i + 1) is None);
    }
}

impl Dictionary {
    /// Writes `value` under `key`, replacing the first entry with that key or appending one.
    pub fn set(&mut self, key: Vec<u8>, value: Object)
        ensures
            final(self).lookup(key@) == Some(value),
            forall|k: Seq<u8>| k != key@ ==> final(self).lookup(k) == old(self).lookup(k),
    {
        let ghost s = self.entries@;
        let ghost kv = key@;
        let mut i: usize = 0;
        while i < self.entries.len()
            invariant
                self.entries@ == s,
                s == old(self).entries@,
                key@ == kv,
                i <= s.len(),
                forall|j: int| 0 <= j < i ==> s[j].0@ != kv,
            decreases s.len() - i,
        {
            let same = bytes_eq(self.entries[i].0.as_slice(), key.as_slice());
            if same {
                let ghost e = (key, value);
                self.entries.set(i, (key, value));
                proof {
                    let t = self.entries@;
                    assert(t == s.update(i as int, e));
                    assert(t[i as int].0@ == kv);
                    lemma_lookup_skip(t, kv, 0, i as int);
                    assert forall|k: Seq<u8>| k != kv implies self.lookup(k) == lookup_from(
                        s,
                        k,
                        0,
                    ) by {
                        assert forall|j: int| 0 <= j < s.len() implies (s[j].0@ == k) == (
                        t[j].0@ == k) by {
                            if j == i {
                                assert(s[j].0@ == kv);
                            }
                        }
                        lemma_lookup_agree(s, t, k, 0);
                    }
                }
                return;
            }
            i = i + 1;
        }
        let ghost e = (key, value);
        self.entries.push((key, value));
        proof {
            let t = self.entries@;
            assert(t == s.push(e));
            lemma_lookup_skip(t, kv, 0, s.len() as int);
            assert forall|k: Seq<u8>| k != kv implies lookup_from(t, k, 0) == lookup_from(
                s,
                k,
                0,
            ) by {
                lemma_lookup_push_other(s, e, k, 0);
            }
        }
    }
}


/// The document graph: nodes keyed by identity, the trailer dictionary, and the largest object
/// number in use, from which fresh identities are drawn.
#[derive(Debug)]
pub struct Document {
    pub objects: Vec<(ObjectId, Object)>,
    pub trailer: Dictionary,
    pub max_id: u32,
}

/// The node stored under `id` in `objects` from position `i` on: the first match wins.
pub open spec fn node_from(objects: Seq<(ObjectId, Object)>, id: ObjectId, i: int) -> Option<Object>
    decreases objects.len() - i,
{
    if i < 0 || i >= objects.len() {
        None
    } else if objects[i].0 == id {
        Some(objects[i].1)
    } else {
        node_from(objects, id, i + 1)
    }
}

/// Nodes between `a` and `b` with another identity do not change the lookup of `id`.
pub proof fn lemma_node_skip(objects: Seq<(ObjectId, Object)>, id: ObjectId, a: int, b: int)
    requires
        0 <= a <= b <= objects.len(),
        forall|j: int| a <= j < b ==> objects[j].0 != id,
    ensures
        node_from(objects, id, a) == node_from(objects, id, b),
    decreases b - a,
{
    if a < b {
        lemma_node_skip(objects, id, a + 1, b);
    }
}

/// Node lists that agree on the identities and on the nodes of `id` give the same lookup.
pub proof fn lemma_node_agree(
    s: Seq<(ObjectId, Object)>,
    t: Seq<(ObjectId, Object)>,
    id: ObjectId,
    i: int,
)
    requires
        0 <= i,
        s.len() == t.len(),
        forall|j: int| i <= j < s.len() ==> s[j].0 == t[j].0,
        forall|j: int| i <= j < s.len() && s[j].0 == id ==> s[j].1 == t[j].1,
    ensures
        node_from(s, id, i) == node_from(t, id, i),
    decreases s.len() - i,
{
    if i < s.len() {
        lemma_node_agree(s, t, id, i + 1);
    }
}

/// Appending a node with another identity leaves the lookup of `id` unchanged.
pub proof fn lemma_node_push_other(
    s: Seq<(ObjectId, Object)>,
    e: (ObjectId, Object),
    id: ObjectId,
    i: int,
)
    requires
        0 <= i <= s.len(),
        e.0 != id,
    ensures
        node_from(s.push(e), id, i) == node_from(s, id, i),
    decreases s.len() - i,
{
    if i < s.len() {
        lemma_node_push_other(s, e, id, i + 1);
    } else {
        assert(node_from(s.push(e), id, i + 1) is None);
    }
}

impl Document {
    /// The node with identity `id`, if the graph has one.
    pub open spec fn node(self, id: ObjectId) -> Option<Object> {
        node_from(self.objects@, id, 0)
    }

    /// The dictionary stored under `id`, if that node is a dictionary.
    pub open spec fn dict_node(self, id: ObjectId) -> Option<Dictionary> {
        match self.node(id) {
            Some(Object::Dictionary(d)) => Some(d),
            _ => None,
        }
    }

    /// Identities are unique and every one in use is at most `max_id`.
    pub open spec fn wf(self) -> bool {
        &&& forall|j: int| 0 <= j < self.objects@.len() ==> self.objects@[j].0.id <= self.max_id
        &&& forall|i: int, j: int|
            0 <= i < self.objects@.len() && 0 <= j < self.objects@.len() && i != j
                ==> self.objects@[i].0 != self.objects@[j].0
    }

    /// Where the node `id` is stored, if anywhere.
    pub fn position(&self, id: ObjectId) -> (r: Option<usize>)
        ensures
            r matches Some(p) ==> p < self.objects@.len() && self.objects@[p as int].0 == id
                && self.node(id) == Some(self.objects@[p as int].1),
            r is None ==> self.node(id) is None,
    {
        let mut i: usize = 0;
        while i < self.objects.len()
            invariant
                i <= self.objects@.len(),
                node_from(self.objects@, id, 0) == node_from(self.objects@, id, i as int),
            decreases self.objects@.len() - i,
        {
            if self.objects[i].0 == id {
                return Some(i);
            }
            i = i + 1;
        }
        None
    }

    /// Resolves `id` to its node.
    pub fn get_object(&self, id: ObjectId) -> (r: Option<&Object>)
        ensures
            r matches Some(o) ==> self.node(id) == Some(*o),
            r is None ==> self.node(id) is None,
    {
        match self.position(id) {
            Some(p) => Some(&self.objects[p].1),
            None => None,
        }
    }

    /// Replaces the node stored at position `p` by `o`, keeping its identity.
    pub fn replace_at(&mut self, p: usize, o: Object)
        requires
            old(self).wf(),
            p < old(self).objects@.len(),
        ensures
            final(self).wf(),
            final(self).objects@.len() == old(self).objects@.len(),
            forall|j: int| 0 <= j < final(self).objects@.len() ==> final(self).objects@[j].0 == old(self).objects@[j].0,
            final(self).trailer == old(self).trailer,
            final(self).max_id == old(self).max_id,
            final(self).node(old(self).objects@[p as int].0) == Some(o),
            forall|q: ObjectId| q != old(self).objects@[p as int].0 ==> final(self).node(q) == old(self).node(q),
    {
        let ghost s = self.objects@;
        let id = self.objects[p].0;
        let ghost e = (id, o);
        self.objects.set(p, (id, o));
        proof {
            let t = self.objects@;
            assert(t == s.update(p as int, e));
            assert forall|q: ObjectId| q != id implies node_from(t, q, 0) == node_from(s, q, 0) by {
                lemma_node_agree(s, t, q, 0);
            }
            lemma_node_agree_prefix(s, t, id, p as int);
        }
    }

    /// Takes the node stored at position `p` out of the graph, leaving `Null` in its place.
    pub fn take_at(&mut self, p: usize) -> (r: Object)
        requires
            p < old(self).objects@.len(),
        ensures
            r == old(self).objects@[p as int].1,
            old(self).wf() ==> final(self).wf(),
            forall|q: ObjectId| q != old(self).objects@[p as int].0 ==> final(self).node(q) == old(self).node(q),
            final(self).objects@ == old(self).objects@.update(p as int, (old(self).objects@[p as int].0, Object::Null)),
            final(self).trailer == old(self).trailer,
            final(self).max_id == old(self).max_id,
    {
        let id = self.objects[p].0;
        let ghost s = self.objects@;
        let mut slot = (id, Object::Null);
        self.objects.set_and_swap(p, &mut slot);
        proof {
            let t = self.objects@;
            assert forall|q: ObjectId| q != id implies node_from(t, q, 0) == node_from(s, q, 0) by {
                lemma_node_agree(s, t, q, 0);
            }
        }
        slot.1
    }

    /// Registers `o` under a fresh identity and returns that identity; `None` when every object
    /// number is taken.
    pub fn add_object(&mut self, o: Object) -> (r: Option<ObjectId>)
        requires
            old(self).wf(),
        ensures
            final(self).wf(),
            final(self).trailer == old(self).trailer,
            r is None ==> *final(self) == *old(self) && old(self).max_id == u32::MAX,
            r matches Some(id) ==> id.id == old(self).max_id + 1 && final(self).max_id == id.id,
            r matches Some(id) ==> old(self).node(id) is None && final(self).node(id) == Some(o)
                && forall|q: ObjectId| q != id ==> final(self).node(q) == old(self).node(q),
    {
        if self.max_id == u32::MAX {
            return None;
        }
        let id = ObjectId { id: self.max_id + 1, gen: 0 };
        let ghost s = self.objects@;
        let ghost e = (id, o);
        proof {
            assert forall|j: int| 0 <= j < s.len() implies s[j].0 != id by {}
            lemma_node_skip(s, id, 0, s.len() as int);
        }
        self.objects.push((id, o));
        self.max_id = self.max_id + 1;
        proof {
            let t = self.objects@;
            assert(t == s.push(e));
            lemma_node_skip(t, id, 0, s.len() as int);
            assert forall|q: ObjectId| q != id implies node_from(t, q, 0) == node_from(s, q, 0) by {
                lemma_node_push_other(s, e, q, 0);
            }
        }
        Some(id)
    }
}

/// The first position `p` whose identity is `id` settles the lookup of `id`, whatever lies
/// after it.
pub proof fn lemma_node_agree_prefix(s: Seq<(ObjectId, Object)>, t: Seq<(ObjectId, Object)>, id: ObjectId, p: int)
    requires
        0 <= p < s.len(),
        s.len() == t.len(),
        t[p].0 == id,
        forall|j: int| 0 <= j < p ==> s[j].0 == t[j].0 && s[j].0 != id,
    ensures
        node_from(t, id, 0) == Some(t[p].1),
{
    lemma_node_skip(t, id, 0, p);
}


/// With unique identities, the node stored at position `j` is the node of its identity.
pub proof fn lemma_node_at(s: Seq<(ObjectId, Object)>, j: int)
    requires
        0 <= j < s.len(),
        forall|a: int, b: int| 0 <= a < s.len() && 0 <= b < s.len() && a != b ==> s[a].0 != s[b].0,
    ensures
        node_from(s, s[j].0, 0) == Some(s[j].1),
{
    lemma_node_skip(s, s[j].0, 0, j);
}

/// An identity stored nowhere has no node.
pub proof fn lemma_node_none(s: Seq<(ObjectId, Object)>, q: ObjectId)
    requires
        forall|j: int| 0 <= j < s.len() ==> s[j].0 != q,
    ensures
        node_from(s, q, 0) is None,
{
    lemma_node_skip(s, q, 0, s.len() as int);
}

impl Document {
    /// Writes `value` under `key` in the dictionary node `id`.
    pub fn set_entry(&mut self, id: ObjectId, key: Vec<u8>, value: Object)
        requires
            old(self).wf(),
            old(self).dict_node(id) is Some,
        ensures
            final(self).wf(),
            final(self).trailer == old(self).trailer,
            final(self).max_id == old(self).max_id,
            final(self).dict_node(id) matches Some(d) && d.lookup(key@) == Some(value)
                && forall|k: Seq<u8>| k != key@ ==> d.lookup(k) == old(self).dict_node(id)->0.lookup(k),
            forall|q: ObjectId| q != id ==> final(self).node(q) == old(self).node(q),
    {
        let p = self.position(id).unwrap();
        let ghost s = self.objects@;
        let o = self.take_at(p);
        proof {
            let t = self.objects@;
            assert forall|q: ObjectId| q != id implies node_from(t, q, 0) == node_from(s, q, 0) by {
                lemma_node_agree(s, t, q, 0);
            }
        }
        match o {
            Object::Dictionary(mut d) => {
                d.set(key, value);
                proof {
                    assert forall|j: int| 0 <= j < self.objects@.len() implies self.objects@[j].0.id <= self.max_id by {}
                }
                self.replace_at(p, Object::Dictionary(d));
            },
            _ => {
                assert(false);
            },
        }
    }

    /// Deletes the node `id`; `false` when the graph has no such node.
    pub fn remove_object(&mut self, id: ObjectId) -> (r: bool)
        requires
            old(self).wf(),
        ensures
            final(self).wf(),
            final(self).trailer == old(self).trailer,
            final(self).max_id == old(self).max_id,
            r == old(self).node(id) is Some,
            final(self).node(id) is None,
            forall|q: ObjectId| q != id ==> final(self).node(q) == old(self).node(q),
    {
        match self.position(id) {
            None => false,
            Some(p) => {
                let ghost s = self.objects@;
                self.objects.remove(p);
                proof {
                    let t = self.objects@;
                    assert(t =~= s.remove(p as int));
                    assert forall|j: int| 0 <= j < t.len() implies t[j].0 != id by {
                        if j < p {
                            assert(t[j] == s[j]);
                        } else {
                            assert(t[j] == s[j + 1]);
                        }
                    }
                    lemma_node_none(t, id);
                    assert forall|q: ObjectId| q != id implies node_from(t, q, 0) == node_from(s, q, 0) by {
                        if exists|j: int| 0 <= j < s.len() && s[j].0 == q {
                            let j = choose|j: int| 0 <= j < s.len() && s[j].0 == q;
                            lemma_node_at(s, j);
                            if j < p {
                                assert(t[j] == s[j]);
                                lemma_node_at(t, j);
                            } else {
                                assert(j != p);
                                assert(t[j - 1] == s[j]);
                                lemma_node_at(t, j - 1);
                            }
                        } else {
                            lemma_node_none(s, q);
                            assert forall|j: int| 0 <= j < t.len() implies t[j].0 != q by {
                                if j < p {
                                    assert(t[j] == s[j]);
                                } else {
                                    assert(t[j] == s[j + 1]);
                                }
                            }
                            lemma_node_none(t, q);
                        }
                    }
                }
                true
            },
        }
    }
}


/// A node that the lookup finds is stored at some position.
pub proof fn lemma_node_found(s: Seq<(ObjectId, Object)>, id: ObjectId, i: int)
    requires
        0 <= i,
        node_from(s, id, i) is Some,
    ensures
        exists|j: int| i <= j < s.len() && s[j].0 == id,
    decreases s.len() - i,
{
    if i < s.len() && s[i].0 != id {
        lemma_node_found(s, id, i + 1);
    }
}

} // verus!
