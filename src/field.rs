//! Classification of a field dictionary and decoding of its current state.
use vstd::prelude::*;
use vstd::utf8::{length_of_first_scalar, pop_first_scalar, valid_first_scalar, valid_utf8};
use crate::object::{bytes_eq, Dictionary, Document, Object, StringFormat};

verus! {

/// The read-only bit of the flags bitmask.
pub const READONLY: u32 = 2;
/// The required bit of the flags bitmask.
pub const REQUIRED: u32 = 4;
/// The read-only bit that a filled-in text field may be marked with.
pub const FILLED_READONLY: u32 = 1;
/// Button flag: the selection cannot be toggled off.
pub const NO_TOGGLE_TO_OFF: u32 = 0x4000;
/// Button flag: a set of radio buttons.
pub const RADIO: u32 = 0x8000;
/// Button flag: a push button, which keeps no state.
pub const PUSHBUTTON: u32 = 0x10000;
/// Choice flag: a combo box rather than a list box.
pub const COMBO: u32 = 0x20000;
/// Choice flag: the combo box accepts free text.
pub const EDIT: u32 = 0x40000;
/// Choice flag: the list box accepts several selections.
pub const MULTISELECT: u32 = 0x200000;

pub open spec fn key_ft() -> Seq<u8> { seq![70u8, 84u8] }
pub open spec fn key_ff() -> Seq<u8> { seq![70u8, 102u8] }
pub open spec fn key_v() -> Seq<u8> { seq![86u8] }
pub open spec fn key_as() -> Seq<u8> { seq![65u8, 83u8] }
pub open spec fn key_ap() -> Seq<u8> { seq![65u8, 80u8] }
pub open spec fn key_n() -> Seq<u8> { seq![78u8] }
pub open spec fn key_kids() -> Seq<u8> { seq![75u8, 105u8, 100u8, 115u8] }
pub open spec fn key_opt() -> Seq<u8> { seq![79u8, 112u8, 116u8] }
pub open spec fn key_t() -> Seq<u8> { seq![84u8] }
pub open spec fn name_off() -> Seq<u8> { seq![79u8, 102u8, 102u8] }
pub open spec fn name_yes() -> Seq<u8> { seq![89u8, 101u8, 115u8] }
pub open spec fn tag_btn() -> Seq<u8> { seq![66u8, 116u8, 110u8] }
pub open spec fn tag_ch() -> Seq<u8> { seq![67u8, 104u8] }
pub open spec fn tag_tx() -> Seq<u8> { seq![84u8, 120u8] }

/// The interaction type of a field.
#[derive(Clone, Copy, Debug, PartialEq, Eq, Structural)]
pub enum FieldType {
    Button,
    Radio,
    CheckBox,
    ListBox,
    ComboBox,
    Text,
    Unknown,
}

/// The current state of a field. Text is given as the bytes stored in the document.
#[derive(Clone, Debug, PartialEq, Eq)]
pub enum FieldState {
    /// Push buttons have no state.
    Button,
    /// `selected` is the option of `options` that is on.
    Radio { selected: Vec<u8>, options: Vec<Vec<u8>>, readonly: bool, required: bool },
    /// Whether the box is checked.
    CheckBox { is_checked: bool, readonly: bool, required: bool },
    /// `selected` lists the chosen entries of `options`.
    ListBox {
        selected: Vec<Vec<u8>>,
        options: Vec<Vec<u8>>,
        multiselect: bool,
        readonly: bool,
        required: bool,
    },
    /// `selected` lists the chosen entries of `options`.
    ComboBox {
        selected: Vec<Vec<u8>>,
        options: Vec<Vec<u8>>,
        editable: bool,
        readonly: bool,
        required: bool,
    },
    /// The text of a text field.
    Text { text: Vec<u8>, readonly: bool, required: bool },
    /// Fields of an unknown type have no state.
    Unknown,
}

/// The flags bitmask of a field; 0 where it has none.
pub open spec fn flags_of(d: Dictionary) -> u32 {
    match d.lookup(key_ff()) {
        Some(Object::Integer(v)) => v as u32,
        _ => 0,
    }
}

pub open spec fn is_readonly(d: Dictionary) -> bool {
    flags_of(d) & READONLY != 0
}

pub open spec fn is_required(d: Dictionary) -> bool {
    flags_of(d) & REQUIRED != 0
}

/// The interaction type of a field, from its type tag and its flags.
pub open spec fn classify(d: Dictionary) -> FieldType {
    match d.lookup(key_ft()) {
        Some(Object::Name(t)) => if t@ == tag_btn() {
            if flags_of(d) & (RADIO | NO_TOGGLE_TO_OFF) != 0 {
                FieldType::Radio
            } else if flags_of(d) & PUSHBUTTON != 0 {
                FieldType::Button
            } else {
                FieldType::CheckBox
            }
        } else if t@ == tag_ch() {
            if flags_of(d) & COMBO != 0 {
                FieldType::ComboBox
            } else {
                FieldType::ListBox
            }
        } else if t@ == tag_tx() {
            FieldType::Text
        } else {
            FieldType::Unknown
        },
        _ => FieldType::Unknown,
    }
}

/// The bytes of a name node.
pub open spec fn name_bytes(o: Option<Object>) -> Option<Seq<u8>> {
    match o {
        Some(Object::Name(b)) => Some(b@),
        _ => None,
    }
}

/// The bytes of a literal string node.
pub open spec fn literal_bytes(o: Object) -> Option<Seq<u8>> {
    match o {
        Object::String(b, StringFormat::Literal) => Some(b@),
        _ => None,
    }
}

/// The appearance-state name of a button: its value if that is a name, else its appearance
/// state if that is a name.
pub open spec fn state_name(d: Dictionary) -> Option<Seq<u8>> {
    match name_bytes(d.lookup(key_v())) {
        Some(n) => Some(n),
        None => name_bytes(d.lookup(key_as())),
    }
}

/// The selected option of a radio field; empty where none is recorded.
pub open spec fn radio_selected(d: Dictionary) -> Seq<u8> {
    match state_name(d) {
        Some(n) => n,
        None => Seq::empty(),
    }
}

/// Whether a check box is checked.
pub open spec fn check_box_on(d: Dictionary) -> bool {
    state_name(d) == Some(name_yes())
}

/// The text of a text field; empty unless its value is a literal string.
pub open spec fn text_value(d: Dictionary) -> Seq<u8> {
    match d.lookup(key_v()) {
        Some(o) => match literal_bytes(o) {
            Some(b) => b,
            None => Seq::empty(),
        },
        None => Seq::empty(),
    }
}

/// The literal strings among `s`, in order.
pub open spec fn literal_strings(s: Seq<Object>) -> Seq<Seq<u8>>
    decreases s.len(),
{
    if s.len() == 0 {
        Seq::empty()
    } else {
        let p = literal_strings(s.drop_last());
        match literal_bytes(s.last()) {
            Some(b) => p.push(b),
            None => p,
        }
    }
}

/// The selection of a choice field: one literal string, or the literal strings of an array.
pub open spec fn choice_selected(d: Dictionary) -> Seq<Seq<u8>> {
    match d.lookup(key_v()) {
        Some(Object::String(b, StringFormat::Literal)) => seq![b@],
        Some(Object::Array(a)) => literal_strings(a@),
        _ => Seq::empty(),
    }
}

/// The text of one entry of an options list: a literal string, or a pair whose second element
/// is one; empty otherwise.
pub open spec fn option_text(o: Object) -> Seq<u8> {
    match o {
        Object::String(b, StringFormat::Literal) => b@,
        Object::Array(a) => if a@.len() == 2 {
            match literal_bytes(a@[1]) {
                Some(b) => b,
                None => Seq::empty(),
            }
        } else {
            Seq::empty()
        },
        _ => Seq::empty(),
    }
}

/// The non-empty entry texts of an options list, in order.
pub open spec fn option_texts(s: Seq<Object>) -> Seq<Seq<u8>>
    decreases s.len(),
{
    if s.len() == 0 {
        Seq::empty()
    } else {
        let p = option_texts(s.drop_last());
        let t = option_text(s.last());
        if t.len() > 0 {
            p.push(t)
        } else {
            p
        }
    }
}

/// The options of a choice field.
pub open spec fn choice_options(d: Dictionary) -> Seq<Seq<u8>> {
    match d.lookup(key_opt()) {
        Some(Object::Array(a)) => option_texts(a@),
        _ => Seq::empty(),
    }
}

/// The decimal digits of `n`.
pub open spec fn decimal(n: nat) -> Seq<u8>
    decreases n,
{
    if n < 10 {
        seq![(48 + n) as u8]
    } else {
        decimal(n / 10).push((48 + n % 10) as u8)
    }
}

/// The first key from position `i` on that is not "Off".
pub open spec fn first_on_key(entries: Seq<(Vec<u8>, Object)>, i: int) -> Option<Seq<u8>>
    decreases entries.len() - i,
{
    if i < 0 || i >= entries.len() {
        None
    } else if entries[i].0@ != name_off() {
        Some(entries[i].0@)
    } else {
        first_on_key(entries, i + 1)
    }
}

/// The "on" appearance-state name of a widget: the first key of its normal appearance
/// dictionary that is not "Off".
pub open spec fn on_key(d: Dictionary) -> Option<Seq<u8>> {
    match d.lookup(key_ap()) {
        Some(Object::Dictionary(ap)) => match ap.lookup(key_n()) {
            Some(Object::Dictionary(nd)) => first_on_key(nd.entries@, 0),
            _ => None,
        },
        _ => None,
    }
}

/// The option that the kid at position `i` of a radio field stands for: its "on" state name,
/// else its position in decimal.
pub open spec fn kid_option(doc: Document, kid: Object, i: nat) -> Seq<u8> {
    let found = match kid {
        Object::Reference(id) => match doc.dict_node(id) {
            Some(kd) => on_key(kd),
            None => None,
        },
        _ => None,
    };
    match found {
        Some(k) => k,
        None => decimal(i),
    }
}

/// The options of the first `n` kids of a radio field.
pub open spec fn kid_options(doc: Document, kids: Seq<Object>, n: nat) -> Seq<Seq<u8>>
    decreases n,
{
    if n == 0 || n > kids.len() {
        Seq::empty()
    } else {
        kid_options(doc, kids, (n - 1) as nat).push(kid_option(doc, kids[n - 1], (n - 1) as nat))
    }
}

/// The options of a radio field, one for each of its kids.
pub open spec fn radio_options(doc: Document, d: Dictionary) -> Seq<Seq<u8>> {
    match d.lookup(key_kids()) {
        Some(Object::Array(a)) => kid_options(doc, a@, a@.len()),
        _ => Seq::empty(),
    }
}

/// The byte strings held by a list of byte vectors.
pub open spec fn texts(v: Seq<Vec<u8>>) -> Seq<Seq<u8>> {
    v.map_values(|b: Vec<u8>| b@)
}

/// `r` is the state that field dictionary `d` of document `doc` records.
pub open spec fn state_of(doc: Document, d: Dictionary, r: FieldState) -> bool {
    match classify(d) {
        FieldType::Button => r is Button,
        FieldType::Unknown => r is Unknown,
        FieldType::Radio => match r {
            FieldState::Radio { selected, options, readonly, required } => selected@
                == radio_selected(d) && texts(options@) == radio_options(doc, d) && readonly
                == is_readonly(d) && required == is_required(d),
            _ => false,
        },
        FieldType::CheckBox => match r {
            FieldState::CheckBox { is_checked, readonly, required } => is_checked
                == check_box_on(d) && readonly == is_readonly(d) && required == is_required(d),
            _ => false,
        },
        FieldType::ListBox => match r {
            FieldState::ListBox { selected, options, multiselect, readonly, required } => texts(
                selected@,
            ) == choice_selected(d) && texts(options@) == choice_options(d) && multiselect == (
            flags_of(d) & MULTISELECT != 0) && readonly == is_readonly(d) && required
                == is_required(d),
            _ => false,
        },
        FieldType::ComboBox => match r {
            FieldState::ComboBox { selected, options, editable, readonly, required } => texts(
                selected@,
            ) == choice_selected(d) && texts(options@) == choice_options(d) && editable == (
            flags_of(d) & EDIT != 0) && readonly == is_readonly(d) && required == is_required(d),
            _ => false,
        },
        FieldType::Text => match r {
            FieldState::Text { text, readonly, required } => text@ == text_value(d) && readonly
                == is_readonly(d) && required == is_required(d),
            _ => false,
        },
    }
}


/// A copy of a byte string.
pub fn copy_bytes(b: &[u8]) -> (r: Vec<u8>)
    ensures
        r@ == b@,
{
    let mut r: Vec<u8> = Vec::new();
    let mut i: usize = 0;
    while i < b.len()
        invariant
            i <= b@.len(),
            r@ == b@.subrange(0, i as int),
        decreases b@.len() - i,
    {
        r.push(b[i]);
        i = i + 1;
        proof {
            assert(r@ =~= b@.subrange(0, i as int));
        }
    }
    assert(r@ =~= b@);
    r
}

/// The flags bitmask of a field dictionary.
pub fn field_flags(d: &Dictionary) -> (r: u32)
    ensures
        r == flags_of(*d),
{
    let k: [u8; 2] = [70, 102];
    assert(k@ == key_ff());
    match d.get(k.as_slice()) {
        Some(Object::Integer(v)) => *v as u32,
        _ => 0,
    }
}

/// The interaction type of a field dictionary.
pub fn field_type_of(d: &Dictionary) -> (r: FieldType)
    ensures
        r == classify(*d),
{
    let k: [u8; 2] = [70, 84];
    assert(k@ == key_ft());
    let btn: [u8; 3] = [66, 116, 110];
    let ch: [u8; 2] = [67, 104];
    let tx: [u8; 2] = [84, 120];
    assert(btn@ == tag_btn() && ch@ == tag_ch() && tx@ == tag_tx());
    let flags = field_flags(d);
    match d.get(k.as_slice()) {
        Some(Object::Name(t)) => {
            if bytes_eq(t.as_slice(), btn.as_slice()) {
                if flags & (RADIO | NO_TOGGLE_TO_OFF) != 0 {
                    FieldType::Radio
                } else if flags & PUSHBUTTON != 0 {
                    FieldType::Button
                } else {
                    FieldType::CheckBox
                }
            } else if bytes_eq(t.as_slice(), ch.as_slice()) {
                if flags & COMBO != 0 {
                    FieldType::ComboBox
                } else {
                    FieldType::ListBox
                }
            } else if bytes_eq(t.as_slice(), tx.as_slice()) {
                FieldType::Text
            } else {
                FieldType::Unknown
            }
        },
        _ => FieldType::Unknown,
    }
}

/// The bytes of `o` if it is a name.
fn name_of(o: Option<&Object>) -> (r: Option<Vec<u8>>)
    ensures
        r matches Some(b) ==> o matches Some(x) && name_bytes(Some(*x)) == Some(b@),
        r is None ==> (o matches Some(x) ==> name_bytes(Some(*x)) is None),
{
    match o {
        Some(Object::Name(b)) => Some(copy_bytes(b.as_slice())),
        _ => None,
    }
}

/// The appearance-state name recorded in a button dictionary.
fn state_name_of(d: &Dictionary) -> (r: Option<Vec<u8>>)
    ensures
        r matches Some(b) ==> state_name(*d) == Some(b@),
        r is None ==> state_name(*d) is None,
{
    let kv: [u8; 1] = [86];
    let ka: [u8; 2] = [65, 83];
    assert(kv@ == key_v() && ka@ == key_as());
    match name_of(d.get(kv.as_slice())) {
        Some(b) => Some(b),
        None => name_of(d.get(ka.as_slice())),
    }
}

/// The literal strings among `a`, in order.
fn literal_strings_of(a: &Vec<Object>) -> (r: Vec<Vec<u8>>)
    ensures
        texts(r@) == literal_strings(a@),
{
    let mut r: Vec<Vec<u8>> = Vec::new();
    let mut i: usize = 0;
    while i < a.len()
        invariant
            i <= a@.len(),
            texts(r@) == literal_strings(a@.subrange(0, i as int)),
        decreases a@.len() - i,
    {
        let ghost pre = a@.subrange(0, i as int);
        let ghost next = a@.subrange(0, i as int + 1);
        assert(next.drop_last() =~= pre);
        assert(next.last() == a@[i as int]);
        match &a[i] {
            Object::String(b, StringFormat::Literal) => {
                let c = copy_bytes(b.as_slice());
                let ghost old_r = r@;
                r.push(c);
                assert(texts(r@) =~= texts(old_r).push(c@));
            },
            _ => {},
        }
        i = i + 1;
    }
    assert(a@.subrange(0, a@.len() as int) =~= a@);
    r
}

/// The selection recorded in a choice field.
pub fn choice_selected_of(d: &Dictionary) -> (r: Vec<Vec<u8>>)
    ensures
        texts(r@) == choice_selected(*d),
{
    let kv: [u8; 1] = [86];
    assert(kv@ == key_v());
    match d.get(kv.as_slice()) {
        Some(Object::String(b, StringFormat::Literal)) => {
            let mut r: Vec<Vec<u8>> = Vec::new();
            r.push(copy_bytes(b.as_slice()));
            assert(texts(r@) =~= seq![b@]);
            r
        },
        Some(Object::Array(a)) => literal_strings_of(a),
        _ => Vec::new(),
    }
}

/// The text of one entry of an options list.
fn option_text_of(o: &Object) -> (r: Vec<u8>)
    ensures
        r@ == option_text(*o),
{
    match o {
        Object::String(b, StringFormat::Literal) => copy_bytes(b.as_slice()),
        Object::Array(a) => {
            if a.len() == 2 {
                match &a[1] {
                    Object::String(b, StringFormat::Literal) => copy_bytes(b.as_slice()),
                    _ => Vec::new(),
                }
            } else {
                Vec::new()
            }
        },
        _ => Vec::new(),
    }
}

/// The options of a choice field.
pub fn choice_options_of(d: &Dictionary) -> (r: Vec<Vec<u8>>)
    ensures
        texts(r@) == choice_options(*d),
{
    let ko: [u8; 3] = [79, 112, 116];
    assert(ko@ == key_opt());
    match d.get(ko.as_slice()) {
        Some(Object::Array(a)) => {
            let mut r: Vec<Vec<u8>> = Vec::new();
            let mut i: usize = 0;
            while i < a.len()
                invariant
                    i <= a@.len(),
                    texts(r@) == option_texts(a@.subrange(0, i as int)),
                decreases a@.len() - i,
            {
                let ghost pre = a@.subrange(0, i as int);
                let ghost next = a@.subrange(0, i as int + 1);
                assert(next.drop_last() =~= pre);
                assert(next.last() == a@[i as int]);
                let t = option_text_of(&a[i]);
                if t.len() > 0 {
                    let ghost old_r = r@;
                    r.push(t);
                    assert(texts(r@) =~= texts(old_r).push(t@));
                }
                i = i + 1;
            }
            assert(a@.subrange(0, a@.len() as int) =~= a@);
            r
        },
        _ => Vec::new(),
    }
}

/// The decimal digits of `n`.
pub fn decimal_bytes(n: usize) -> (r: Vec<u8>)
    ensures
        r@ == decimal(n as nat),
    decreases n,
{
    if n < 10 {
        let mut r: Vec<u8> = Vec::new();
        r.push(48 + n as u8);
        assert(r@ =~= decimal(n as nat));
        r
    } else {
        let mut r = decimal_bytes(n / 10);
        r.push(48 + (n % 10) as u8);
        r
    }
}

/// The "on" state name of a widget dictionary, if it has one.
pub fn on_key_of(d: &Dictionary) -> (r: Option<Vec<u8>>)
    ensures
        r matches Some(b) ==> on_key(*d) == Some(b@),
        r is None ==> on_key(*d) is None,
{
    let kap: [u8; 2] = [65, 80];
    let kn: [u8; 1] = [78];
    let off: [u8; 3] = [79, 102, 102];
    assert(kap@ == key_ap() && kn@ == key_n() && off@ == name_off());
    match d.get(kap.as_slice()) {
        Some(Object::Dictionary(ap)) => match ap.get(kn.as_slice()) {
            Some(Object::Dictionary(nd)) => {
                let mut i: usize = 0;
                while i < nd.entries.len()
                    invariant
                        i <= nd.entries@.len(),
                        off@ == name_off(),
                        d.lookup(key_ap()) == Some(Object::Dictionary(*ap)),
                        ap.lookup(key_n()) == Some(Object::Dictionary(*nd)),
                        first_on_key(nd.entries@, 0) == first_on_key(nd.entries@, i as int),
                    decreases nd.entries@.len() - i,
                {
                    if !bytes_eq(nd.entries[i].0.as_slice(), off.as_slice()) {
                        return Some(copy_bytes(nd.entries[i].0.as_slice()));
                    }
                    i = i + 1;
                }
                None
            },
            _ => None,
        },
        _ => None,
    }
}

/// The options of a radio field: for each kid, its "on" state name, else its position.
pub fn radio_options_of(doc: &Document, d: &Dictionary) -> (r: Vec<Vec<u8>>)
    ensures
        texts(r@) == radio_options(*doc, *d),
{
    let kk: [u8; 4] = [75, 105, 100, 115];
    assert(kk@ == key_kids());
    match d.get(kk.as_slice()) {
        Some(Object::Array(a)) => {
            let mut r: Vec<Vec<u8>> = Vec::new();
            let mut i: usize = 0;
            while i < a.len()
                invariant
                    i <= a@.len(),
                    texts(r@) == kid_options(*doc, a@, i as nat),
                decreases a@.len() - i,
            {
                let found = match &a[i] {
                    Object::Reference(id) => match doc.get_object(*id) {
                        Some(Object::Dictionary(kd)) => on_key_of(kd),
                        _ => None,
                    },
                    _ => None,
                };
                let t = match found {
                    Some(k) => k,
                    None => decimal_bytes(i),
                };
                assert(t@ == kid_option(*doc, a@[i as int], i as nat));
                let ghost old_r = r@;
                r.push(t);
                assert(texts(r@) =~= texts(old_r).push(t@));
                i = i + 1;
            }
            r
        },
        _ => Vec::new(),
    }
}

/// The state recorded in field dictionary `d` of document `doc`.
pub fn state_of_field(doc: &Document, d: &Dictionary) -> (r: FieldState)
    ensures
        state_of(*doc, *d, r),
{
    let flags = field_flags(d);
    let readonly = flags & READONLY != 0;
    let required = flags & REQUIRED != 0;
    match field_type_of(d) {
        FieldType::Button => FieldState::Button,
        FieldType::Unknown => FieldState::Unknown,
        FieldType::Radio => {
            let selected = match state_name_of(d) {
                Some(n) => n,
                None => Vec::new(),
            };
            FieldState::Radio { selected, options: radio_options_of(doc, d), readonly, required }
        },
        FieldType::CheckBox => {
            let yes: [u8; 3] = [89, 101, 115];
            assert(yes@ == name_yes());
            let is_checked = match state_name_of(d) {
                Some(n) => bytes_eq(n.as_slice(), yes.as_slice()),
                None => false,
            };
            FieldState::CheckBox { is_checked, readonly, required }
        },
        FieldType::ListBox => FieldState::ListBox {
            selected: choice_selected_of(d),
            options: choice_options_of(d),
            multiselect: flags & MULTISELECT != 0,
            readonly,
            required,
        },
        FieldType::ComboBox => FieldState::ComboBox {
            selected: choice_selected_of(d),
            options: choice_options_of(d),
            editable: flags & EDIT != 0,
            readonly,
            required,
        },
        FieldType::Text => {
            let kv: [u8; 1] = [86];
            assert(kv@ == key_v());
            let text = match d.get(kv.as_slice()) {
                Some(Object::String(b, StringFormat::Literal)) => copy_bytes(b.as_slice()),
                _ => Vec::new(),
            };
            FieldState::Text { text, readonly, required }
        },
    }
}


/// The length of the UTF-8 encoding of one scalar at the start of `b[i..]`, if it starts
/// with a well-formed one.
fn first_scalar_len(b: &[u8], i: usize) -> (r: Option<usize>)
    requires
        i < b@.len(),
    ensures
        r is Some == valid_first_scalar(b@.subrange(i as int, b@.len() as int)),
        r matches Some(l) ==> l as int == length_of_first_scalar(b@.subrange(i as int, b@.len() as int))
            && i + l <= b@.len(),
{
    let ghost rest = b@.subrange(i as int, b@.len() as int);
    let n = b.len() - i;
    let b0 = b[i];
    assert(rest[0] == b0);
    if b0 <= 0x7f {
        return Some(1);
    }
    if 0xc0 <= b0 && b0 <= 0xdf {
        if n < 2 {
            return None;
        }
        let b1 = b[i + 1];
        assert(rest[1] == b1);
        if !(0x80 <= b1 && b1 <= 0xbf) {
            return None;
        }
        let c: u32 = (((b0 & 0x1F) as u32) << 6) | ((b1 & 0x3f) as u32);
        if c < 0x80 || (0xD800 <= c && c <= 0xDFFF) {
            return None;
        }
        return Some(2);
    }
    if 0xe0 <= b0 && b0 <= 0xef {
        if n < 3 {
            return None;
        }
        let b1 = b[i + 1];
        let b2 = b[i + 2];
        assert(rest[1] == b1 && rest[2] == b2);
        if !(0x80 <= b1 && b1 <= 0xbf && 0x80 <= b2 && b2 <= 0xbf) {
            return None;
        }
        let c: u32 = (((b0 & 0x0F) as u32) << 12) | (((b1 & 0x3f) as u32) << 6) | ((b2 & 0x3f) as u32);
        if c < 0x800 || (0xD800 <= c && c <= 0xDFFF) {
            return None;
        }
        return Some(3);
    }
    if 0xf0 <= b0 && b0 <= 0xf7 {
        if n < 4 {
            return None;
        }
        let b1 = b[i + 1];
        let b2 = b[i + 2];
        let b3 = b[i + 3];
        assert(rest[1] == b1 && rest[2] == b2 && rest[3] == b3);
        if !(0x80 <= b1 && b1 <= 0xbf && 0x80 <= b2 && b2 <= 0xbf && 0x80 <= b3 && b3 <= 0xbf) {
            return None;
        }
        let c: u32 = (((b0 & 0x07) as u32) << 18) | (((b1 & 0x3f) as u32) << 12) | (((b2 & 0x3f) as u32) << 6) | ((b3 & 0x3f) as u32);
        if c < 0x10000 || c > 0x10ffff || (0xD800 <= c && c <= 0xDFFF) {
            return None;
        }
        return Some(4);
    }
    None
}

/// Whether `b` is well-formed UTF-8.
pub fn is_utf8(b: &[u8]) -> (r: bool)
    ensures
        r == valid_utf8(b@),
{
    let mut i: usize = 0;
    assert(b@.subrange(0, b@.len() as int) =~= b@);
    while i < b.len()
        invariant
            i <= b@.len(),
            valid_utf8(b@) == valid_utf8(b@.subrange(i as int, b@.len() as int)),
        decreases b@.len() - i,
    {
        let ghost rest = b@.subrange(i as int, b@.len() as int);
        match first_scalar_len(b, i) {
            None => {
                return false;
            },
            Some(l) => {
                assert(pop_first_scalar(rest) =~= b@.subrange(i + l, b@.len() as int));
                i = i + l;
            },
        }
    }
    assert(b@.subrange(i as int, b@.len() as int) =~= Seq::<u8>::empty());
    true
}

} // verus!
