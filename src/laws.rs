//! Properties that relate several operations of a form.
use vstd::prelude::*;
use crate::field::{texts, name_bytes, check_box_on, classify, key_ap, key_as, key_ft, key_v, name_yes, on_key, FieldState, FieldType};
use crate::form::{list_box_set, check_box_set, check_box_token, lemma_walk_typed, text_written, Form};
use crate::walk::{top_level, walk, walk_depth};

verus! {

/// A loaded form has one field for each terminal field the walk of its tree finds; every one
/// is a dictionary with a type tag, and its type is the one its tag and flags give.
pub proof fn law_loaded_fields_typed(f: Form)
    requires
        top_level(f.document) is Ok,
        f.form_ids@ == walk(f.document, top_level(f.document)->Ok_0, walk_depth(f.document)),
    ensures
        f.form_ids@.len() == walk(f.document, top_level(f.document)->Ok_0, walk_depth(f.document)).len(),
        forall|i: int| 0 <= i < f.form_ids@.len() ==> (#[trigger] f.field(i)) is Some
            && f.field(i)->0.lookup(key_ft()) is Some && f.field_type(i) == classify(f.field(i)->0),
{
    lemma_walk_typed(f.document, top_level(f.document)->Ok_0, walk_depth(f.document));
    assert forall|i: int| 0 <= i < f.form_ids@.len() implies (#[trigger] f.field(i)) is Some
        && f.field(i)->0.lookup(key_ft()) is Some && f.field_type(i) == classify(f.field(i)->0) by {
        assert(f.document.dict_node(walk(f.document, top_level(f.document)->Ok_0, walk_depth(f.document))[i]) is Some);
    }
}

/// Writing text `s` into a text field and then reading its state gives back `s`.
pub proof fn law_text_round_trip(f0: Form, f1: Form, n: int, s: Seq<u8>, fallback: int, readonly: bool, r: FieldState)
    requires
        0 <= n < f0.form_ids@.len(),
        f0.field_type(n) == FieldType::Text,
        text_written(f0, f1, n, s, fallback, readonly),
        f1.field_state(n, r),
    ensures
        r matches FieldState::Text { text, .. } && text@ == s,
{
    let d0 = f0.field(n)->0;
    let d1 = f1.field(n)->0;
    assert(d1.lookup(key_ft()) == d0.lookup(key_ft()));
    assert(classify(d1) == FieldType::Text);
}

/// Checking a check box twice leaves it as checking it once: its state is the same, the second
/// time changes none of its entries nor any other node, and both its value and its appearance
/// state hold its "on" name.
pub proof fn law_check_box_idempotent(f0: Form, f1: Form, f2: Form, n: int)
    requires
        0 <= n < f0.form_ids@.len(),
        f0.field(n) is Some,
        f0.field_type(n) == FieldType::CheckBox,
        check_box_set(f0, f1, n, true),
        check_box_set(f1, f2, n, true),
    ensures
        forall|r: FieldState| f2.field_state(n, r) == f1.field_state(n, r),
        forall|k: Seq<u8>| k != key_v() && k != key_as() ==> f2.field(n)->0.lookup(k) == f1.field(n)->0.lookup(k),
        name_bytes(f2.field(n)->0.lookup(key_v())) == name_bytes(f1.field(n)->0.lookup(key_v())),
        name_bytes(f2.field(n)->0.lookup(key_as())) == name_bytes(f1.field(n)->0.lookup(key_as())),
        forall|q| q != f1.form_ids@[n] ==> f2.document.node(q) == f1.document.node(q),
        name_bytes(f2.field(n)->0.lookup(key_v())) == name_bytes(f2.field(n)->0.lookup(key_as())),
        check_box_on(f2.field(n)->0) == (check_box_token(f0.field(n)->0, true) == name_yes()),
{
    let d0 = f0.field(n)->0;
    let d1 = f1.field(n)->0;
    let d2 = f2.field(n)->0;
    assert(key_ap()[1] != key_as()[1]);
    assert(!set![key_v(), key_as()].contains(key_ap()));
    assert(d1.lookup(key_ap()) == d0.lookup(key_ap()));
    assert(on_key(d1) == on_key(d0));
    assert(check_box_token(d1, true) == check_box_token(d0, true));
    assert forall|k: Seq<u8>| k != key_v() && k != key_as() implies d2.lookup(k) == d1.lookup(k) by {
        assert(!set![key_v(), key_as()].contains(k));
    }
    assert(!set![key_v(), key_as()].contains(key_ft()));
    assert(!set![key_v(), key_as()].contains(crate::field::key_ff()));
    assert(d1.lookup(key_ft()) == d0.lookup(key_ft()));
    assert(d1.lookup(crate::field::key_ff()) == d0.lookup(crate::field::key_ff()));
    assert(d2.lookup(key_ft()) == d1.lookup(key_ft()));
    assert(d2.lookup(crate::field::key_ff()) == d1.lookup(crate::field::key_ff()));
    assert(classify(d1) == FieldType::CheckBox);
    assert(classify(d2) == FieldType::CheckBox);
    assert(crate::field::state_name(d2) == crate::field::state_name(d1));
}


/// After the selection of a list box is set, its state reports exactly that selection; an
/// empty one clears it.
pub proof fn law_list_box_read_back(f0: Form, f1: Form, n: int, choices: Seq<Seq<u8>>, r: FieldState)
    requires
        0 <= n < f0.form_ids@.len(),
        f0.field_type(n) == FieldType::ListBox,
        list_box_set(f0, f1, n, choices),
        f1.field_state(n, r),
    ensures
        r matches FieldState::ListBox { selected, .. } && texts(selected@) == choices,
{
    let d0 = f0.field(n)->0;
    let d1 = f1.field(n)->0;
    assert(key_v() != key_ft() && key_v() != crate::field::key_ff());
    assert(!set![key_v()].contains(key_ft()));
    assert(!set![key_v()].contains(crate::field::key_ff()));
    assert(d1.lookup(key_ft()) == d0.lookup(key_ft()));
    assert(d1.lookup(crate::field::key_ff()) == d0.lookup(crate::field::key_ff()));
    assert(classify(d1) == FieldType::ListBox);
}

} // verus!
