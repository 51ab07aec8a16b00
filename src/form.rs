//! A form: a document together with the ordered list of its terminal fields.
use vstd::prelude::*;
use crate::field::{
    choice_options, choice_selected, classify, copy_bytes, field_flags,
    field_type_of, flags_of, key_as, key_ft, key_t, key_v, name_bytes, on_key, on_key_of,
    radio_options, radio_options_of, state_of, state_of_field, texts, FieldState,
    FieldType, EDIT, MULTISELECT,
};
use crate::object::{bytes_eq, Document, Dictionary, Object, ObjectId, StringFormat};
use crate::walk::{
    entry_ids, level_ids, top_level, top_level_of, walk, walk_depth, walk_error, walk_levels,
    LoadError,
};

verus! {

/// Errors that may occur while setting the value of a field.
#[derive(Clone, Copy, Debug, PartialEq, Eq, Structural)]
pub enum ValueError {
    /// The operation does not apply to the field's type.
    TypeMismatch,
    /// One or more of the given choices are not options of the field.
    InvalidSelection,
    /// Several choices were given to a field that takes one.
    TooManySelected,
    /// The field is read-only.
    Readonly,
    /// The field's node is not in the document.
    NotFound,
}

/// A document with a fillable form, and the identities of its terminal fields in level order.
/// The position of a field in `form_ids` is its index in every operation. Removing a field
/// deletes its node but keeps its position, so that the indices of the other fields stay
/// valid; a removed field reads as `Unknown`.
#[derive(Debug)]
pub struct Form {
    pub document: Document,
    pub form_ids: Vec<ObjectId>,
    /// Appearance regenerations that failed after a value was written; the values stand.
    pub warnings: Vec<AppearanceError>,
}

impl Form {
    /// The document is well formed and every listed field either was removed or is a
    /// dictionary with a type tag.
    pub open spec fn wf(self) -> bool {
        &&& self.document.wf()
        &&& forall|i: int| 0 <= i < self.form_ids@.len() ==> (#[trigger] self.form_ids@[i]).id <= self.document.max_id
        &&& forall|i: int| 0 <= i < self.form_ids@.len() ==> {
            ||| self.document.node(#[trigger] self.form_ids@[i]) is None
            ||| (self.document.dict_node(self.form_ids@[i]) matches Some(d) && d.lookup(key_ft()) is Some)
        }
    }

    /// The dictionary of field `n`, unless it was removed.
    pub open spec fn field(self, n: int) -> Option<Dictionary> {
        self.document.dict_node(self.form_ids@[n])
    }

    /// The type of field `n`.
    pub open spec fn field_type(self, n: int) -> FieldType {
        match self.field(n) {
            Some(d) => classify(d),
            None => FieldType::Unknown,
        }
    }

    /// `r` is the state of field `n`.
    pub open spec fn field_state(self, n: int, r: FieldState) -> bool {
        match self.field(n) {
            Some(d) => state_of(self.document, d, r),
            None => r is Unknown,
        }
    }

    /// `r` is the name of field `n`: the UTF-8 text of its name string, if it has one that
    /// is well-formed UTF-8.
    pub open spec fn field_name(self, n: int, r: Option<Vec<u8>>) -> bool {
        match r {
            Some(b) => self.field(n) matches Some(d) && d.lookup(key_t()) matches Some(Object::String(t, _)) && t@ == b@
                && vstd::utf8::valid_utf8(b@),
            None => !(self.field(n) matches Some(d) && d.lookup(key_t()) matches Some(Object::String(t, _))
                && vstd::utf8::valid_utf8(t@)),
        }
    }

    /// Only the dictionary of field `n` may differ, in the keys other than `keys`.
    pub open spec fn only_field_changed(self, new: Form, n: int, keys: Set<Seq<u8>>) -> bool {
        &&& new.form_ids@ == self.form_ids@
        &&& new.document.trailer == self.document.trailer
        &&& forall|q: ObjectId| q != self.form_ids@[n] ==> new.document.node(q) == self.document.node(q)
        &&& new.field(n) is Some
        &&& forall|k: Seq<u8>| !keys.contains(k) ==> new.field(n)->0.lookup(k) == self.field(n)->0.lookup(k)
    }

    /// Locates the fields of `document`, ending with an error at the first field entry that does
    /// not resolve.
    pub fn load_doc(document: Document) -> (r: Result<Form, LoadError>)
        requires
            document.wf(),
        ensures
            r matches Ok(f) ==> f.wf() && f.document == document && top_level(document) is Ok
                && walk_error(document, top_level(document)->Ok_0, walk_depth(document)) is None
                && f.form_ids@ == walk(document, top_level(document)->Ok_0, walk_depth(document)),
            r matches Err(e) ==> top_level(document) == Err::<Seq<Option<ObjectId>>, LoadError>(e)
                || (top_level(document) is Ok && walk_error(document, top_level(document)->Ok_0, walk_depth(document)) == Some(e)),
    {
        Self::load_with(document, true)
    }

    /// Locates the fields of `document`, skipping field entries that do not resolve.
    pub fn load_doc2(document: Document) -> (r: Result<Form, LoadError>)
        requires
            document.wf(),
        ensures
            r matches Ok(f) ==> f.wf() && f.document == document && top_level(document) is Ok
                && f.form_ids@ == walk(document, top_level(document)->Ok_0, walk_depth(document)),
            r matches Err(e) ==> top_level(document) == Err::<Seq<Option<ObjectId>>, LoadError>(e),
    {
        Self::load_with(document, false)
    }

    fn load_with(document: Document, strict: bool) -> (r: Result<Form, LoadError>)
        requires
            document.wf(),
        ensures
            r matches Ok(f) ==> f.wf() && f.document == document && top_level(document) is Ok
                && (strict ==> walk_error(document, top_level(document)->Ok_0, walk_depth(document)) is None)
                && f.form_ids@ == walk(document, top_level(document)->Ok_0, walk_depth(document)),
            r matches Err(e) ==> top_level(document) == Err::<Seq<Option<ObjectId>>, LoadError>(e)
                || (strict && top_level(document) is Ok && walk_error(document, top_level(document)->Ok_0, walk_depth(document)) == Some(e)),
    {
        let top = match top_level_of(&document) {
            Ok(t) => t,
            Err(e) => return Err(e),
        };
        let depth = document.objects.len();
        let form_ids = match walk_levels(&document, top, depth, strict) {
            Ok(ids) => ids,
            Err(e) => return Err(e),
        };
        proof {
            let w = walk(document, top_level(document)->Ok_0, walk_depth(document));
            lemma_walk_typed(document, top_level(document)->Ok_0, walk_depth(document));
            assert forall|i: int| 0 <= i < form_ids@.len() implies (#[trigger] form_ids@[i]).id <= document.max_id by {
                assert(document.dict_node(w[i]) is Some);
                crate::object::lemma_node_found(document.objects@, w[i], 0);
            }
        }
        Ok(Form { document, form_ids, warnings: Vec::new() })
    }

    /// The number of fields.
    pub fn len(&self) -> (r: usize)
        ensures
            r == self.form_ids@.len(),
    {
        self.form_ids.len()
    }

    /// Whether the form has no fields.
    pub fn is_empty(&self) -> (r: bool)
        ensures
            r == (self.form_ids@.len() == 0),
    {
        self.len() == 0
    }

    /// The dictionary of field `n`, unless it was removed.
    fn field_dict(&self, n: usize) -> (r: Option<&Dictionary>)
        requires
            n < self.form_ids@.len(),
        ensures
            r matches Some(d) ==> self.field(n as int) == Some(*d),
            r is None ==> self.field(n as int) is None,
    {
        match self.document.get_object(self.form_ids[n]) {
            Some(Object::Dictionary(d)) => Some(d),
            _ => None,
        }
    }

    /// The type of field `n`.
    pub fn get_type(&self, n: usize) -> (r: FieldType)
        requires
            n < self.form_ids@.len(),
        ensures
            r == self.field_type(n as int),
    {
        match self.field_dict(n) {
            Some(d) => field_type_of(d),
            None => FieldType::Unknown,
        }
    }

    /// The name of field `n`: the UTF-8 text of its name string, if it has a well-formed one.
    pub fn get_name(&self, n: usize) -> (r: Option<Vec<u8>>)
        requires
            n < self.form_ids@.len(),
        ensures
            self.field_name(n as int, r),
    {
        let kt: [u8; 1] = [84];
        assert(kt@ == key_t());
        match self.field_dict(n) {
            Some(d) => match d.get(kt.as_slice()) {
                Some(Object::String(t, _)) => {
                    if crate::field::is_utf8(t.as_slice()) {
                        Some(copy_bytes(t.as_slice()))
                    } else {
                        None
                    }
                },
                _ => None,
            },
            None => None,
        }
    }

    /// The types of all fields, by index.
    pub fn get_all_types(&self) -> (r: Vec<FieldType>)
        ensures
            r@.len() == self.form_ids@.len(),
            forall|i: int| 0 <= i < r@.len() ==> r@[i] == self.field_type(i),
    {
        let mut r: Vec<FieldType> = Vec::new();
        let mut i: usize = 0;
        while i < self.form_ids.len()
            invariant
                i <= self.form_ids@.len(),
                r@.len() == i,
                forall|j: int| 0 <= j < i ==> r@[j] == self.field_type(j),
            decreases self.form_ids@.len() - i,
        {
            r.push(self.get_type(i));
            i = i + 1;
        }
        r
    }

    /// The names of all fields, by index.
    pub fn get_all_names(&self) -> (r: Vec<Option<Vec<u8>>>)
        ensures
            r@.len() == self.form_ids@.len(),
            forall|i: int| 0 <= i < r@.len() ==> self.field_name(i, #[trigger] r@[i]),
    {
        let mut r: Vec<Option<Vec<u8>>> = Vec::new();
        let mut i: usize = 0;
        while i < self.form_ids.len()
            invariant
                i <= self.form_ids@.len(),
                r@.len() == i,
                forall|j: int| 0 <= j < i ==> self.field_name(j, #[trigger] r@[j]),
            decreases self.form_ids@.len() - i,
        {
            r.push(self.get_name(i));
            i = i + 1;
        }
        r
    }

    /// The state of field `n`.
    pub fn get_state(&self, n: usize) -> (r: FieldState)
        requires
            n < self.form_ids@.len(),
        ensures
            self.field_state(n as int, r),
    {
        match self.field_dict(n) {
            Some(d) => state_of_field(&self.document, d),
            None => FieldState::Unknown,
        }
    }

    /// The identity of field `n`.
    pub fn get_object_id(&self, n: usize) -> (r: ObjectId)
        requires
            n < self.form_ids@.len(),
        ensures
            r == self.form_ids@[n as int],
    {
        self.form_ids[n]
    }
}

impl Form {
    /// Writes `value` under `key` in the dictionary of field `n`.
    fn set_field_entry(&mut self, n: usize, key: Vec<u8>, value: Object)
        requires
            old(self).wf(),
            n < old(self).form_ids@.len(),
            old(self).field(n as int) is Some,
            key@ != key_ft(),
        ensures
            final(self).wf(),
            old(self).only_field_changed(*final(self), n as int, set![key@]),
            final(self).field(n as int)->0.lookup(key@) == Some(value),
            forall|k: Seq<u8>| k != key@ ==> final(self).field(n as int)->0.lookup(k) == old(self).field(n as int)->0.lookup(k),
            final(self).document.max_id == old(self).document.max_id,
            final(self).warnings == old(self).warnings,
    {
        let id = self.form_ids[n];
        let ghost kv = key@;
        self.document.set_entry(id, key, value);
        proof {
            let ids = self.form_ids@;
            assert forall|i: int| 0 <= i < ids.len() implies {
                ||| self.document.node(#[trigger] ids[i]) is None
                ||| (self.document.dict_node(ids[i]) matches Some(d) && d.lookup(key_ft()) is Some)
            } by {
                if ids[i] != id {
                    assert(self.document.node(ids[i]) == old(self).document.node(ids[i]));
                } else {
                    assert(key_ft() != kv);
                }
            }
            assert forall|k: Seq<u8>| !set![kv].contains(k) implies self.field(n as int)->0.lookup(k) == old(self).field(n as int)->0.lookup(k) by {
                assert(k != kv);
            }
        }
    }

    /// Checks or unchecks check box `n`: both its value and its appearance state become its
    /// "on" state name ("Yes" where its appearance names none), or "Off".
    pub fn set_check_box(&mut self, n: usize, is_checked: bool) -> (r: Result<(), ValueError>)
        requires
            old(self).wf(),
            n < old(self).form_ids@.len(),
        ensures
            final(self).wf(),
            old(self).field_type(n as int) != FieldType::CheckBox ==> r == Err::<(), ValueError>(ValueError::TypeMismatch) && *final(self) == *old(self),
            old(self).field_type(n as int) == FieldType::CheckBox ==> r is Ok && check_box_set(*old(self), *final(self), n as int, is_checked),
    {
        if self.get_type(n) != FieldType::CheckBox {
            return Err(ValueError::TypeMismatch);
        }
        let token = {
            let d = self.field_dict(n).unwrap();
            if is_checked {
                match on_key_of(d) {
                    Some(k) => k,
                    None => {
                        let yes: [u8; 3] = [89, 101, 115];
                        assert(yes@ == crate::field::name_yes());
                        copy_bytes(yes.as_slice())
                    },
                }
            } else {
                let off: [u8; 3] = [79, 102, 102];
                assert(off@ == crate::field::name_off());
                copy_bytes(off.as_slice())
            }
        };
        let ghost s0 = *self;
        let ghost tk = token@;
        assert(tk == check_box_token(s0.field(n as int)->0, is_checked));
        let v2 = copy_bytes(token.as_slice());
        let kv: [u8; 1] = [86];
        let ka: [u8; 2] = [65, 83];
        assert(kv@ == key_v() && ka@ == key_as());
        self.set_field_entry(n, copy_bytes(kv.as_slice()), Object::Name(token));
        let ghost s1 = *self;
        self.set_field_entry(n, copy_bytes(ka.as_slice()), Object::Name(v2));
        proof {
            assert(key_v() != key_as());
            assert(name_bytes(s1.field(n as int)->0.lookup(key_v())) == Some(tk));
            assert(!set![key_as()].contains(key_v()));
            assert(self.field(n as int)->0.lookup(key_v()) == s1.field(n as int)->0.lookup(key_v()));
            assert(name_bytes(self.field(n as int)->0.lookup(key_as())) == Some(tk));
            assert forall|k: Seq<u8>| !set![key_v(), key_as()].contains(k) implies self.field(n as int)->0.lookup(k) == s0.field(n as int)->0.lookup(k) by {
                assert(!set![key_v()].contains(k));
                assert(!set![key_as()].contains(k));
            }
        }
        Ok(())
    }
}

/// Whether `x` is one of the byte strings in `list`.
pub fn contains_bytes(list: &Vec<Vec<u8>>, x: &[u8]) -> (r: bool)
    ensures
        r == texts(list@).contains(x@),
{
    let mut i: usize = 0;
    while i < list.len()
        invariant
            i <= list@.len(),
            forall|j: int| 0 <= j < i ==> list@[j]@ != x@,
        decreases list@.len() - i,
    {
        if bytes_eq(list[i].as_slice(), x) {
            assert(texts(list@)[i as int] == x@);
            return true;
        }
        i = i + 1;
    }
    assert forall|j: int| 0 <= j < texts(list@).len() implies texts(list@)[j] != x@ by {
        assert(texts(list@)[j] == list@[j]@);
    }
    false
}

/// Whether every one of `xs` is one of the byte strings in `list`.
pub fn all_contained(list: &Vec<Vec<u8>>, xs: &Vec<Vec<u8>>) -> (r: bool)
    ensures
        r == (forall|j: int| 0 <= j < xs@.len() ==> texts(list@).contains(#[trigger] xs@[j]@)),
{
    let mut i: usize = 0;
    while i < xs.len()
        invariant
            i <= xs@.len(),
            forall|j: int| 0 <= j < i ==> texts(list@).contains(#[trigger] xs@[j]@),
        decreases xs@.len() - i,
    {
        if !contains_bytes(list, xs[i].as_slice()) {
            return false;
        }
        i = i + 1;
    }
    true
}

/// Literal string nodes holding `xs`, in order.
fn literal_array(xs: &Vec<Vec<u8>>) -> (r: Vec<Object>)
    ensures
        crate::field::literal_strings(r@) == texts(xs@),
        r@.len() == xs@.len(),
        forall|i: int| 0 <= i < r@.len() ==> crate::field::literal_bytes(#[trigger] r@[i]) == Some(xs@[i]@),
{
    let mut r: Vec<Object> = Vec::new();
    let mut i: usize = 0;
    while i < xs.len()
        invariant
            i <= xs@.len(),
            crate::field::literal_strings(r@) == texts(xs@.subrange(0, i as int)),
            r@.len() == i,
            forall|j: int| 0 <= j < i ==> crate::field::literal_bytes(#[trigger] r@[j]) == Some(xs@[j]@),
        decreases xs@.len() - i,
    {
        let b = copy_bytes(xs[i].as_slice());
        let ghost r0 = r@;
        let ghost bv = b@;
        r.push(Object::String(b, StringFormat::Literal));
        proof {
            assert(r@.drop_last() =~= r0);
            assert(texts(xs@.subrange(0, i as int + 1)) =~= texts(xs@.subrange(0, i as int)).push(bv));
        }
        i = i + 1;
    }
    assert(xs@.subrange(0, xs@.len() as int) =~= xs@);
    r
}

impl Form {
    /// Selects option `choice` of radio field `n`.
    pub fn set_radio(&mut self, n: usize, choice: Vec<u8>) -> (r: Result<(), ValueError>)
        requires
            old(self).wf(),
            n < old(self).form_ids@.len(),
        ensures
            final(self).wf(),
            old(self).field_type(n as int) != FieldType::Radio ==> r == Err::<(), ValueError>(ValueError::TypeMismatch) && *final(self) == *old(self),
            old(self).field_type(n as int) == FieldType::Radio && !radio_options(old(self).document, old(self).field(n as int)->0).contains(choice@)
                ==> r == Err::<(), ValueError>(ValueError::InvalidSelection) && *final(self) == *old(self),
            old(self).field_type(n as int) == FieldType::Radio && radio_options(old(self).document, old(self).field(n as int)->0).contains(choice@)
                ==> r is Ok && old(self).only_field_changed(*final(self), n as int, set![key_v()])
                && (final(self).field(n as int)->0.lookup(key_v()) matches Some(Object::Name(b)) && b@ == choice@),
    {
        if self.get_type(n) != FieldType::Radio {
            return Err(ValueError::TypeMismatch);
        }
        let options = radio_options_of(&self.document, self.field_dict(n).unwrap());
        if !contains_bytes(&options, choice.as_slice()) {
            return Err(ValueError::InvalidSelection);
        }
        let kv: [u8; 1] = [86];
        assert(kv@ == key_v());
        self.set_field_entry(n, copy_bytes(kv.as_slice()), Object::Name(choice));
        Ok(())
    }

    /// Selects options `choices` of list box `n`: none clears the value, one is stored as a
    /// string, several as an array of strings.
    pub fn set_list_box(&mut self, n: usize, choices: Vec<Vec<u8>>) -> (r: Result<(), ValueError>)
        requires
            old(self).wf(),
            n < old(self).form_ids@.len(),
        ensures
            final(self).wf(),
            old(self).field_type(n as int) != FieldType::ListBox ==> r == Err::<(), ValueError>(ValueError::TypeMismatch) && *final(self) == *old(self),
            old(self).field_type(n as int) == FieldType::ListBox ==> {
                let d = old(self).field(n as int)->0;
                let valid = forall|j: int| 0 <= j < choices@.len() ==> choice_options(d).contains(#[trigger] choices@[j]@);
                let multi = flags_of(d) & MULTISELECT != 0;
                &&& !valid ==> r == Err::<(), ValueError>(ValueError::InvalidSelection) && *final(self) == *old(self)
                &&& valid && !multi && choices@.len() > 1 ==> r == Err::<(), ValueError>(ValueError::TooManySelected) && *final(self) == *old(self)
                &&& valid && (multi || choices@.len() <= 1) ==> r is Ok && list_box_set(*old(self), *final(self), n as int, texts(choices@))
            },
    {
        if self.get_type(n) != FieldType::ListBox {
            return Err(ValueError::TypeMismatch);
        }
        let (options, multiselect) = {
            let d = self.field_dict(n).unwrap();
            (crate::field::choice_options_of(d), field_flags(d) & MULTISELECT != 0)
        };
        if !all_contained(&options, &choices) {
            return Err(ValueError::InvalidSelection);
        }
        if !multiselect && choices.len() > 1 {
            return Err(ValueError::TooManySelected);
        }
        let kv: [u8; 1] = [86];
        assert(kv@ == key_v());
        let value = if choices.len() == 0 {
            Object::Null
        } else if choices.len() == 1 {
            let b = copy_bytes(choices[0].as_slice());
            assert(texts(choices@) =~= seq![b@]);
            Object::String(b, StringFormat::Literal)
        } else {
            Object::Array(literal_array(&choices))
        };
        assert(texts(choices@).len() == 0 ==> texts(choices@) =~= Seq::<Seq<u8>>::empty());
        self.set_field_entry(n, copy_bytes(kv.as_slice()), value);
        Ok(())
    }

    /// Sets combo box `n` to `choice`, which must be one of its options unless the box is
    /// editable.
    pub fn set_combo_box(&mut self, n: usize, choice: Vec<u8>) -> (r: Result<(), ValueError>)
        requires
            old(self).wf(),
            n < old(self).form_ids@.len(),
        ensures
            final(self).wf(),
            old(self).field_type(n as int) != FieldType::ComboBox ==> r == Err::<(), ValueError>(ValueError::TypeMismatch) && *final(self) == *old(self),
            old(self).field_type(n as int) == FieldType::ComboBox ==> {
                let d = old(self).field(n as int)->0;
                let allowed = choice_options(d).contains(choice@) || flags_of(d) & EDIT != 0;
                &&& !allowed ==> r == Err::<(), ValueError>(ValueError::InvalidSelection) && *final(self) == *old(self)
                &&& allowed ==> r is Ok && old(self).only_field_changed(*final(self), n as int, set![key_v()])
                    && (final(self).field(n as int)->0.lookup(key_v()) matches Some(Object::String(b, StringFormat::Literal))
                    && b@ == choice@)
            },
    {
        if self.get_type(n) != FieldType::ComboBox {
            return Err(ValueError::TypeMismatch);
        }
        let (options, editable) = {
            let d = self.field_dict(n).unwrap();
            (crate::field::choice_options_of(d), field_flags(d) & EDIT != 0)
        };
        if !(contains_bytes(&options, choice.as_slice()) || editable) {
            return Err(ValueError::InvalidSelection);
        }
        let kv: [u8; 1] = [86];
        assert(kv@ == key_v());
        self.set_field_entry(n, copy_bytes(kv.as_slice()), Object::String(choice, StringFormat::Literal));
        Ok(())
    }

    /// Deletes the node of field `n` from the document. The field keeps its index and reads
    /// as `Unknown` from then on.
    pub fn remove_field(&mut self, n: usize) -> (r: Result<(), ValueError>)
        requires
            old(self).wf(),
            n < old(self).form_ids@.len(),
        ensures
            final(self).wf(),
            final(self).form_ids@ == old(self).form_ids@,
            r is Ok == old(self).document.node(old(self).form_ids@[n as int]) is Some,
            r is Err ==> r == Err::<(), ValueError>(ValueError::NotFound),
            final(self).document.node(old(self).form_ids@[n as int]) is None,
            forall|q: ObjectId| q != old(self).form_ids@[n as int] ==> final(self).document.node(q) == old(self).document.node(q),
    {
        let id = self.form_ids[n];
        let found = self.document.remove_object(id);
        proof {
            let ids = self.form_ids@;
            assert forall|i: int| 0 <= i < ids.len() implies {
                ||| self.document.node(#[trigger] ids[i]) is None
                ||| (self.document.dict_node(ids[i]) matches Some(d) && d.lookup(key_ft()) is Some)
            } by {
                if ids[i] != id {
                    assert(self.document.node(ids[i]) == old(self).document.node(ids[i]));
                }
            }
        }
        if found {
            Ok(())
        } else {
            Err(ValueError::NotFound)
        }
    }
}

/// `new` is `old` after check box `n` was set to `is_checked`: only its value and appearance
/// state changed, and both hold the name that setting writes.
pub open spec fn check_box_set(old: Form, new: Form, n: int, is_checked: bool) -> bool {
    &&& old.only_field_changed(new, n, set![key_v(), key_as()])
    &&& name_bytes(new.field(n)->0.lookup(key_v())) == Some(check_box_token(old.field(n)->0, is_checked))
    &&& name_bytes(new.field(n)->0.lookup(key_as())) == Some(check_box_token(old.field(n)->0, is_checked))
}

/// `new` is `old` after the selection of list box `n` was set to `choices`: only its value
/// changed, to nothing for no choice, a string for one, an array of exactly the strings, in
/// order, for several.
pub open spec fn list_box_set(old: Form, new: Form, n: int, choices: Seq<Seq<u8>>) -> bool {
    &&& old.only_field_changed(new, n, set![key_v()])
    &&& choice_selected(new.field(n)->0) == choices
    &&& choices.len() == 0 ==> new.field(n)->0.lookup(key_v()) == Some(Object::Null)
    &&& choices.len() == 1 ==> (new.field(n)->0.lookup(key_v()) matches Some(Object::String(b, StringFormat::Literal)) && b@ == choices[0])
    &&& choices.len() > 1 ==> (new.field(n)->0.lookup(key_v()) matches Some(Object::Array(a)) && a@.len() == choices.len()
        && forall|i: int| 0 <= i < a@.len() ==> crate::field::literal_bytes(#[trigger] a@[i]) == Some(choices[i]))
}

/// The appearance-state name that checking (or unchecking) the check box `d` writes.
pub open spec fn check_box_token(d: Dictionary, is_checked: bool) -> Seq<u8> {
    if is_checked {
        match on_key(d) {
            Some(k) => k,
            None => crate::field::name_yes(),
        }
    } else {
        crate::field::name_off()
    }
}

pub open spec fn key_da() -> Seq<u8> { seq![68u8, 65u8] }
pub open spec fn key_rect() -> Seq<u8> { seq![82u8, 101u8, 99u8, 116u8] }

/// Why the appearance of a text field could not be regenerated.
#[derive(Clone, Copy, Debug, PartialEq, Eq, Structural)]
pub enum AppearanceError {
    /// The field's value is not a string.
    NoText,
    /// The field has no rectangle of four numbers.
    NoRectangle,
    /// The normal appearance entry is not a reference.
    BadAppearanceEntry,
    /// The normal appearance is not a stream.
    NotAStream,
    /// The normal appearance stream does not hold decoded drawing instructions.
    NotDecoded,
    /// No identity is left for a new appearance stream.
    NoFreeIdentity,
}

/// The directive of a field, if it is a string.
pub open spec fn da_of(d: Dictionary) -> Option<Seq<u8>> {
    match d.lookup(key_da()) {
        Some(Object::String(b, _)) => Some(b@),
        _ => None,
    }
}

/// The text that a field's value shows, if the value is a string.
pub open spec fn shown_text(d: Dictionary) -> Option<Seq<u8>> {
    match d.lookup(key_v()) {
        Some(Object::String(b, _)) => Some(b@),
        _ => None,
    }
}

/// A rectangle coordinate in thousandths; 0 where the entry is not a number in range.
pub open spec fn coord(o: Object) -> int {
    match o {
        Object::Integer(v) => if -1_000_000_000_000 <= v <= 1_000_000_000_000 { v * 1000 } else { 0 },
        Object::Real(m) => if -1_000_000_000_000_000 <= m <= 1_000_000_000_000_000 { m as int } else { 0 },
        _ => 0,
    }
}

/// The lower edge minus the upper edge of a field's rectangle, in thousandths.
pub open spec fn rect_dy(d: Dictionary) -> Option<int> {
    match d.lookup(key_rect()) {
        Some(Object::Array(a)) => if a@.len() >= 4 {
            Some(coord(a@[1]) - coord(a@[3]))
        } else {
            None
        },
        _ => None,
    }
}

/// The normal appearance stream a field's appearance dictionary refers to.
pub open spec fn appearance_ref(d: Dictionary) -> Option<ObjectId> {
    match d.lookup(crate::field::key_ap()) {
        Some(Object::Dictionary(ap)) => match ap.lookup(crate::field::key_n()) {
            Some(Object::Reference(id)) => Some(id),
            _ => None,
        },
        _ => None,
    }
}

/// The drawing instructions of the appearance that a regeneration of field `d` starts from:
/// those of its normal appearance stream, or none where one is created.
pub open spec fn previous_operations(doc: Document, d: Dictionary) -> Seq<crate::object::Operation> {
    match appearance_ref(d) {
        Some(sid) => match doc.node(sid) {
            Some(Object::Stream(st)) => match st.operations {
                Some(o) => o@,
                None => Seq::empty(),
            },
            _ => Seq::empty(),
        },
        None => Seq::empty(),
    }
}

/// The normal appearance of field `d` is a rewritten stream whose instructions are those of
/// `prev` regenerated to show `text`.
pub open spec fn appearance_shows(
    doc: Document,
    d: Dictionary,
    prev: Seq<crate::object::Operation>,
    font: (Seq<u8>, int, crate::appearance::Color),
    y: int,
    text: Seq<u8>,
) -> bool {
    match appearance_ref(d) {
        Some(sid) => match doc.node(sid) {
            Some(Object::Stream(st)) => st.rewritten && match st.operations {
                Some(ops) => crate::appearance::regenerated(prev, ops@, font, y, text),
                None => false,
            },
            _ => false,
        },
        None => false,
    }
}

/// The new appearance dictionary `nd` holds only its normal appearance, stream `sid`.
pub open spec fn fresh_appearance(nd: Dictionary, sid: ObjectId) -> bool {
    match nd.lookup(crate::field::key_ap()) {
        Some(Object::Dictionary(ap)) => ap.entries@.len() == 1 && ap.lookup(crate::field::key_n()) == Some(Object::Reference(sid)),
        _ => false,
    }
}

/// Stream `sid` kept its dictionary and stored bytes.
pub open spec fn stream_kept(old: Document, new: Document, sid: ObjectId) -> bool {
    match (old.node(sid), new.node(sid)) {
        (Some(Object::Stream(a)), Some(Object::Stream(b))) => b.dict == a.dict && b.content == a.content,
        _ => false,
    }
}

/// Stream `sid` is a new stream with an empty dictionary and no stored bytes.
pub open spec fn stream_new(old: Document, new: Document, sid: ObjectId) -> bool {
    &&& old.node(sid) is None
    &&& match new.node(sid) {
        Some(Object::Stream(b)) => b.dict.entries@.len() == 0 && b.content@.len() == 0,
        _ => false,
    }
}

/// Where the regenerated appearance of field `fid` (dictionary `d` before, `nd` after) went:
/// into its existing normal appearance stream, with the field itself unchanged, or into a new
/// stream that a new appearance dictionary of the field refers to alone. No other node changed.
pub open spec fn appearance_placed(old: Document, new: Document, fid: ObjectId, d: Dictionary, nd: Dictionary) -> bool {
    let sid = appearance_ref(nd)->0;
    &&& appearance_ref(nd) is Some
    &&& appearance_ref(d) is Some ==> appearance_ref(d) == appearance_ref(nd) && nd == d && stream_kept(old, new, sid)
    &&& appearance_ref(d) is None ==> stream_new(old, new, sid) && fresh_appearance(nd, sid)
    &&& forall|q: ObjectId| q != fid && q != sid ==> new.node(q) == old.node(q)
}

/// The error that regenerating the appearance of field `d`, whose value is a string, meets,
/// if any.
pub open spec fn regen_error_after_write(doc: Document, d: Dictionary) -> Option<AppearanceError> {
    if rect_dy(d) is None {
        Some(AppearanceError::NoRectangle)
    } else {
        match d.lookup(crate::field::key_ap()) {
            Some(Object::Dictionary(ap)) => match ap.lookup(crate::field::key_n()) {
                Some(Object::Reference(sid)) => match doc.node(sid) {
                    Some(Object::Stream(st)) => if st.operations is Some {
                        None
                    } else {
                        Some(AppearanceError::NotDecoded)
                    },
                    _ => Some(AppearanceError::NotAStream),
                },
                Some(_) => Some(AppearanceError::BadAppearanceEntry),
                None => if doc.max_id < u32::MAX {
                    None
                } else {
                    Some(AppearanceError::NoFreeIdentity)
                },
            },
            _ => if doc.max_id < u32::MAX {
                None
            } else {
                Some(AppearanceError::NoFreeIdentity)
            },
        }
    }
}

/// The error that regenerating the appearance of field `d` meets, if any.
pub open spec fn regeneration_error(doc: Document, d: Dictionary) -> Option<AppearanceError> {
    if shown_text(d) is None {
        Some(AppearanceError::NoText)
    } else {
        regen_error_after_write(doc, d)
    }
}

/// The coordinate an entry of a rectangle stands for, in thousandths.
fn coordinate(o: &Object) -> (r: i64)
    ensures
        r as int == coord(*o),
{
    match o {
        Object::Integer(v) => if -1_000_000_000_000 <= *v && *v <= 1_000_000_000_000 { *v * 1000 } else { 0 },
        Object::Real(m) => if -1_000_000_000_000_000 <= *m && *m <= 1_000_000_000_000_000 { *m } else { 0 },
        _ => 0,
    }
}

/// The size used where a text is written without a fallback font size.
pub const DEFAULT_FONT_SIZE: i32 = 12;

impl Form {
    /// Rewrites the normal appearance of text field `n` so that it shows the field's value:
    /// the text-painting instructions are removed and a marked "Tx" section showing the value
    /// is appended. A field without a normal appearance gets a new, empty appearance stream
    /// first, in a new appearance dictionary that holds only that stream. The font is the one the field's directive selects, or Helvetica at
    /// `fallback` where it selects none or one of size zero.
    pub fn regenerate_text_appearance(&mut self, n: usize, fallback: i32) -> (r: Result<(), AppearanceError>)
        requires
            old(self).wf(),
            n < old(self).form_ids@.len(),
            old(self).field_type(n as int) == FieldType::Text,
        ensures
            final(self).wf(),
            final(self).form_ids@ == old(self).form_ids@,
            final(self).warnings == old(self).warnings,
            r matches Err(e) ==> *final(self) == *old(self) && regeneration_error(old(self).document, old(self).field(n as int)->0) == Some(e),
            r is Ok ==> regeneration_error(old(self).document, old(self).field(n as int)->0) is None && {
                let d = old(self).field(n as int)->0;
                let font = crate::appearance::effective_font(da_of(d), fallback as int);
                let y = crate::appearance::text_y(rect_dy(d)->0, font.1);
                &&& final(self).field(n as int) is Some
                &&& appearance_shows(final(self).document, final(self).field(n as int)->0, previous_operations(old(self).document, d), font, y, shown_text(d)->0)
                &&& forall|k: Seq<u8>| k != crate::field::key_ap() ==> final(self).field(n as int)->0.lookup(k) == d.lookup(k)
                &&& appearance_placed(old(self).document, final(self).document, old(self).form_ids@[n as int], d, final(self).field(n as int)->0)
            },
    {
        let ghost s0 = *self;
        let ghost d0 = self.field(n as int)->0;
        let kv: [u8; 1] = [86];
        let kda: [u8; 2] = [68, 65];
        let kr: [u8; 4] = [82, 101, 99, 116];
        let kap: [u8; 2] = [65, 80];
        let kn: [u8; 1] = [78];
        assert(kv@ == key_v() && kda@ == key_da() && kr@ == key_rect());
        assert(kap@ == crate::field::key_ap() && kn@ == crate::field::key_n());
        // Everything the regeneration needs from the field, read before the graph changes.
        let (text, font, dy, existing) = {
            let d = self.field_dict(n).unwrap();
            let text = match d.get(kv.as_slice()) {
                Some(Object::String(b, _)) => copy_bytes(b.as_slice()),
                _ => return Err(AppearanceError::NoText),
            };
            let parsed = match d.get(kda.as_slice()) {
                Some(Object::String(b, _)) => crate::appearance::parse_font(b.as_slice()),
                _ => None,
            };
            let font = match parsed {
                Some(f) => f,
                None => {
                    let helv: [u8; 4] = [72, 101, 108, 118];
                    assert(helv@ == crate::appearance::font_helv());
                    crate::appearance::FontSpec {
                        name: copy_bytes(helv.as_slice()),
                        size: fallback as i64 * 1000,
                        color: crate::appearance::Color::Gray(0),
                    }
                },
            };
            let dy = match d.get(kr.as_slice()) {
                Some(Object::Array(a)) => {
                    if a.len() >= 4 {
                        coordinate(&a[1]) - coordinate(&a[3])
                    } else {
                        return Err(AppearanceError::NoRectangle);
                    }
                },
                _ => return Err(AppearanceError::NoRectangle),
            };
            let existing = match d.get(kap.as_slice()) {
                Some(Object::Dictionary(ap)) => match ap.get(kn.as_slice()) {
                    Some(Object::Reference(sid)) => Some(*sid),
                    Some(_) => return Err(AppearanceError::BadAppearanceEntry),
                    None => None,
                },
                _ => None,
            };
            (text, font, dy, existing)
        };
        assert(font.size == crate::appearance::effective_font(da_of(d0), fallback as int).1);
        let sid = match existing {
            Some(sid) => {
                match self.document.get_object(sid) {
                    Some(Object::Stream(st)) => {
                        if st.operations.is_none() {
                            return Err(AppearanceError::NotDecoded);
                        }
                    },
                    _ => return Err(AppearanceError::NotAStream),
                }
                sid
            },
            None => {
                let empty = crate::object::Stream {
                    dict: Dictionary::new(),
                    content: Vec::new(),
                    operations: Some(Vec::new()),
                    rewritten: false,
                };
                let ghost sx = *self;
                let ghost eg = empty;
                let sid = match self.document.add_object(Object::Stream(empty)) {
                    Some(id) => id,
                    None => return Err(AppearanceError::NoFreeIdentity),
                };
                proof {
                    let ids = self.form_ids@;
                    assert forall|i: int| 0 <= i < ids.len() implies {
                        ||| self.document.node(#[trigger] ids[i]) is None
                        ||| (self.document.dict_node(ids[i]) matches Some(d) && d.lookup(key_ft()) is Some)
                    } by {
                        assert(ids[i].id <= sx.document.max_id);
                        assert(ids[i] != sid);
                    }
                }
                let mut ap_entries: Vec<(Vec<u8>, Object)> = Vec::new();
                ap_entries.push((copy_bytes(kn.as_slice()), Object::Reference(sid)));
                let ap = Dictionary { entries: ap_entries };
                assert(ap.lookup(crate::field::key_n()) == Some(Object::Reference(sid)));
                assert(self.form_ids@[n as int] != sid);
                assert(self.field(n as int) == Some(d0));
                self.set_field_entry(n, copy_bytes(kap.as_slice()), Object::Dictionary(ap));
                proof {
                    assert forall|k: Seq<u8>| k != crate::field::key_ap() implies self.field(n as int)->0.lookup(k) == d0.lookup(k) by {
                        assert(!set![crate::field::key_ap()].contains(k));
                    }
                    assert(s0.document.node(sid) is None);
                    assert(self.document.node(sid) == Some(Object::Stream(eg)));
                    assert(fresh_appearance(self.field(n as int)->0, sid));
                    assert(appearance_ref(self.field(n as int)->0) == Some(sid));
                    assert forall|q: ObjectId| q != s0.form_ids@[n as int] && q != sid implies self.document.node(q) == s0.document.node(q) by {}
                }
                sid
            },
        };
        let y = crate::appearance::text_offset(dy, font.size);
        let p = self.document.position(sid).unwrap();
        let ghost s1 = *self;
        let ghost nd = self.field(n as int)->0;
        let ghost prev = previous_operations(s0.document, d0);
        proof {
            assert(appearance_ref(nd) == Some(sid));
            assert(s1.document.node(sid) matches Some(Object::Stream(st)) && st.operations is Some);
            assert(self.document.node(sid) matches Some(Object::Stream(st)) && st.operations matches Some(o) && o@ == prev);
            assert(self.form_ids@[n as int] != sid);
            assert forall|k: Seq<u8>| k != crate::field::key_ap() implies nd.lookup(k) == d0.lookup(k) by {}
        }
        let taken = self.document.take_at(p);
        match taken {
            Object::Stream(st) => {
                let ghost stg = st;
                let crate::object::Stream { dict, content, operations, rewritten: _ } = st;
                let old_ops = operations.unwrap();
                let ops = crate::appearance::text_appearance_operations(old_ops, &font, y, text.as_slice());
                let fresh = crate::object::Stream { dict, content, operations: Some(ops), rewritten: true };
                let ghost fg = fresh;
                self.document.replace_at(p, Object::Stream(fresh));
                proof {
                    let ids = self.form_ids@;
                    assert forall|i: int| 0 <= i < ids.len() implies {
                        ||| self.document.node(#[trigger] ids[i]) is None
                        ||| (self.document.dict_node(ids[i]) matches Some(d) && d.lookup(key_ft()) is Some)
                    } by {
                        assert(ids[i] != sid);
                        assert(self.document.node(ids[i]) == s1.document.node(ids[i]));
                    }
                    assert(self.field(n as int) == Some(nd));
                    assert(s1.document.node(sid) == Some(Object::Stream(stg)));
                    assert(self.document.node(sid) == Some(Object::Stream(fg)));
                    assert forall|q: ObjectId| q != s0.form_ids@[n as int] && q != sid implies self.document.node(q) == s0.document.node(q) by {
                        assert(self.document.node(q) == s1.document.node(q));
                    }
                }
                Ok(())
            },
            _ => {
                assert(false);
                Err(AppearanceError::NotAStream)
            },
        }
    }
}

/// The flags a field has once it is marked read-only after filling: its previous integer
/// flags, or 0, with the lowest bit set.
pub open spec fn filled_flags(d: Dictionary) -> i64 {
    match d.lookup(crate::field::key_ff()) {
        Some(Object::Integer(v)) => v | 1,
        _ => 1,
    }
}

/// `new` is `old` after text `s` was written into text field `n` with fallback font size
/// `fallback`: the value is the literal string `s`, only the value and the appearance (and,
/// with `readonly`, the flags) changed, and either the appearance shows `s` or a warning
/// records why it could not be regenerated; no node but the field and its appearance stream
/// changed.
pub open spec fn text_written(old: Form, new: Form, n: int, s: Seq<u8>, fallback: int, readonly: bool) -> bool {
    let d = old.field(n)->0;
    let nd = new.field(n)->0;
    let font = crate::appearance::effective_font(da_of(d), fallback);
    let y = crate::appearance::text_y(rect_dy(d)->0, font.1);
    &&& new.wf()
    &&& new.form_ids@ == old.form_ids@
    &&& new.field(n) is Some
    &&& nd.lookup(key_v()) matches Some(Object::String(b, StringFormat::Literal)) && b@ == s
    &&& forall|k: Seq<u8>| k != key_v() && k != crate::field::key_ap() && k != crate::field::key_ff() ==> nd.lookup(k) == d.lookup(k)
    &&& readonly ==> nd.lookup(crate::field::key_ff()) == Some(Object::Integer(filled_flags(d)))
    &&& !readonly ==> nd.lookup(crate::field::key_ff()) == d.lookup(crate::field::key_ff())
    &&& regen_error_after_write(old.document, d) is None ==> new.warnings@ == old.warnings@
        && appearance_shows(new.document, nd, previous_operations(old.document, d), font, y, s)
    &&& regen_error_after_write(old.document, d) is Some
        ==> new.warnings@ == old.warnings@.push(regen_error_after_write(old.document, d)->0)
    &&& forall|q: ObjectId| q != old.form_ids@[n] && Some(q) != appearance_ref(nd) ==> new.document.node(q) == old.document.node(q)
}

impl Form {
    /// Writes text `s` into text field `n`, then regenerates its appearance with the default
    /// font size as fallback.
    pub fn set_text(&mut self, n: usize, s: Vec<u8>) -> (r: Result<(), ValueError>)
        requires
            old(self).wf(),
            n < old(self).form_ids@.len(),
        ensures
            old(self).field_type(n as int) != FieldType::Text ==> r == Err::<(), ValueError>(ValueError::TypeMismatch) && *final(self) == *old(self),
            old(self).field_type(n as int) == FieldType::Text ==> r is Ok && text_written(*old(self), *final(self), n as int, s@, DEFAULT_FONT_SIZE as int, false),
            final(self).wf(),
    {
        self.write_text(n, s, DEFAULT_FONT_SIZE, false)
    }

    /// Writes text `s` into text field `n`, then regenerates its appearance with `f` as the
    /// fallback font size.
    pub fn set_text_fs(&mut self, n: usize, s: Vec<u8>, f: i32) -> (r: Result<(), ValueError>)
        requires
            old(self).wf(),
            n < old(self).form_ids@.len(),
        ensures
            old(self).field_type(n as int) != FieldType::Text ==> r == Err::<(), ValueError>(ValueError::TypeMismatch) && *final(self) == *old(self),
            old(self).field_type(n as int) == FieldType::Text ==> r is Ok && text_written(*old(self), *final(self), n as int, s@, f as int, false),
            final(self).wf(),
    {
        self.write_text(n, s, f, false)
    }

    /// Writes text `s` into text field `n`, marks it read-only by setting the lowest flag
    /// bit, then regenerates its appearance with `f` as the fallback font size.
    pub fn set_text_fs_ro(&mut self, n: usize, s: Vec<u8>, f: i32) -> (r: Result<(), ValueError>)
        requires
            old(self).wf(),
            n < old(self).form_ids@.len(),
        ensures
            old(self).field_type(n as int) != FieldType::Text ==> r == Err::<(), ValueError>(ValueError::TypeMismatch) && *final(self) == *old(self),
            old(self).field_type(n as int) == FieldType::Text ==> r is Ok && text_written(*old(self), *final(self), n as int, s@, f as int, true),
            final(self).wf(),
    {
        self.write_text(n, s, f, true)
    }

    fn write_text(&mut self, n: usize, s: Vec<u8>, f: i32, readonly: bool) -> (r: Result<(), ValueError>)
        requires
            old(self).wf(),
            n < old(self).form_ids@.len(),
        ensures
            old(self).field_type(n as int) != FieldType::Text ==> r == Err::<(), ValueError>(ValueError::TypeMismatch) && *final(self) == *old(self),
            old(self).field_type(n as int) == FieldType::Text ==> r is Ok && text_written(*old(self), *final(self), n as int, s@, f as int, readonly),
            final(self).wf(),
    {
        if self.get_type(n) != FieldType::Text {
            return Err(ValueError::TypeMismatch);
        }
        let ghost s0 = *self;
        let ghost d0 = self.field(n as int)->0;
        let ghost sv = s@;
        let kv: [u8; 1] = [86];
        let kff: [u8; 2] = [70, 102];
        assert(kv@ == key_v() && kff@ == crate::field::key_ff());
        self.set_field_entry(n, copy_bytes(kv.as_slice()), Object::String(s, StringFormat::Literal));
        if readonly {
            let flags: i64 = match self.field_dict(n).unwrap().get(kff.as_slice()) {
                Some(Object::Integer(v)) => *v,
                _ => 0,
            };
            assert(self.field(n as int)->0.lookup(crate::field::key_ff()) == d0.lookup(crate::field::key_ff()));
            self.set_field_entry(n, copy_bytes(kff.as_slice()), Object::Integer(flags | 1));
            proof {
                assert(0i64 | 1i64 == 1i64) by (bit_vector);
            }
        }
        let ghost s1 = *self;
        let ghost d1 = self.field(n as int)->0;
        proof {
            assert(d1.lookup(key_ft()) == d0.lookup(key_ft()));
            assert(classify(d1) == FieldType::Text);
            assert(da_of(d1) == da_of(d0));
            assert(rect_dy(d1) == rect_dy(d0));
            assert(appearance_ref(d1) == appearance_ref(d0));
            assert(shown_text(d1) == Some(sv));
            if appearance_ref(d0) is Some {
                let sid = appearance_ref(d0)->0;
                if sid != s0.form_ids@[n as int] {
                    assert(s1.document.node(sid) == s0.document.node(sid));
                }
            }
            assert(previous_operations(s1.document, d1) == previous_operations(s0.document, d0));
            assert(regeneration_error(s1.document, d1) == regen_error_after_write(s0.document, d0));
            assert forall|q: ObjectId| q != s0.form_ids@[n as int] implies s1.document.node(q) == s0.document.node(q) by {}
        }
        match self.regenerate_text_appearance(n, f) {
            Ok(()) => {},
            Err(e) => {
                self.warnings.push(e);
            },
        }
        Ok(())
    }
}

/// Every identity a walk finds resolves to a dictionary with a type tag.
pub proof fn lemma_level_typed(doc: Document, l: Seq<Option<ObjectId>>)
    ensures
        forall|i: int| 0 <= i < level_ids(doc, l).len() ==> (doc.dict_node(#[trigger] level_ids(doc, l)[i]) matches Some(d) && d.lookup(key_ft()) is Some),
    decreases l.len(),
{
    if l.len() > 0 {
        lemma_level_typed(doc, l.drop_last());
        let p = level_ids(doc, l.drop_last());
        let e = entry_ids(doc, l.last());
        assert(level_ids(doc, l) == p + e);
        assert forall|i: int| 0 <= i < (p + e).len() implies (doc.dict_node(#[trigger] (p + e)[i]) matches Some(d) && d.lookup(key_ft()) is Some) by {
            if i >= p.len() {
                assert((p + e)[i] == e[i - p.len()]);
            } else {
                assert((p + e)[i] == p[i]);
            }
        }
    }
}

/// Every identity a walk finds resolves to a dictionary with a type tag.
pub proof fn lemma_walk_typed(doc: Document, l: Seq<Option<ObjectId>>, depth: nat)
    ensures
        forall|i: int| 0 <= i < walk(doc, l, depth).len() ==> (doc.dict_node(#[trigger] walk(doc, l, depth)[i]) matches Some(d) && d.lookup(key_ft()) is Some),
    decreases depth,
{
    if depth > 0 {
        lemma_level_typed(doc, l);
        let k = crate::walk::level_kids(doc, l);
        lemma_walk_typed(doc, k, (depth - 1) as nat);
        let p = level_ids(doc, l);
        let w = walk(doc, k, (depth - 1) as nat);
        assert(walk(doc, l, depth) == p + w);
        assert forall|i: int| 0 <= i < (p + w).len() implies (doc.dict_node(#[trigger] (p + w)[i]) matches Some(d) && d.lookup(key_ft()) is Some) by {
            if i >= p.len() {
                assert((p + w)[i] == w[i - p.len()]);
            } else {
                assert((p + w)[i] == p[i]);
            }
        }
    }
}

} // verus!
