use pdf_form::appearance::{parse_font, Color};
use pdf_form::field::{decimal_bytes, FieldState, FieldType};
use pdf_form::form::{AppearanceError, Form, ValueError};
use pdf_form::object::{Dictionary, Document, Object, ObjectId, Operation, Stream, StringFormat};
use pdf_form::walk::{LoadError, StructureProblem};

fn id(n: u32) -> ObjectId {
    ObjectId { id: n, gen: 0 }
}

fn dict(entries: Vec<(&str, Object)>) -> Dictionary {
    Dictionary { entries: entries.into_iter().map(|(k, v)| (k.as_bytes().to_vec(), v)).collect() }
}

fn name(s: &str) -> Object {
    Object::Name(s.as_bytes().to_vec())
}

fn lit(s: &str) -> Object {
    Object::String(s.as_bytes().to_vec(), StringFormat::Literal)
}

fn reference(n: u32) -> Object {
    Object::Reference(id(n))
}

/// A document whose form lists `fields` (by object number) and holds `objects`, numbered
/// from 10 on; the catalog is object 1 and the form dictionary object 2.
fn document(fields: Vec<u32>, objects: Vec<(u32, Object)>) -> Document {
    let mut all = vec![
        (id(1), Object::Dictionary(dict(vec![("Type", name("Catalog")), ("AcroForm", reference(2))]))),
        (
            id(2),
            Object::Dictionary(dict(vec![(
                "Fields",
                Object::Array(fields.into_iter().map(reference).collect()),
            )])),
        ),
    ];
    let mut max = 2;
    for (n, o) in objects {
        max = max.max(n);
        all.push((id(n), o));
    }
    Document { objects: all, trailer: dict(vec![("Root", reference(1))]), max_id: max }
}

fn field(entries: Vec<(&str, Object)>) -> Object {
    Object::Dictionary(dict(entries))
}

fn stream(ops: Vec<Operation>) -> Object {
    Object::Stream(Stream { dict: Dictionary::new(), content: Vec::new(), operations: Some(ops), rewritten: false })
}

fn lookup<'a>(d: &'a Dictionary, key: &str) -> Option<&'a Object> {
    d.entries.iter().find(|(k, _)| k.as_slice() == key.as_bytes()).map(|(_, v)| v)
}

fn node<'a>(doc: &'a Document, n: ObjectId) -> &'a Object {
    &doc.objects.iter().find(|(i, _)| *i == n).unwrap().1
}

fn field_dict(f: &Form, i: usize) -> &Dictionary {
    match node(&f.document, f.form_ids[i]) {
        Object::Dictionary(d) => d,
        _ => panic!("not a dictionary"),
    }
}

fn bytes(s: &str) -> Vec<u8> {
    s.as_bytes().to_vec()
}

fn mixed_form() -> Form {
    let doc = document(
        vec![10, 11, 12, 13],
        vec![
            (10, field(vec![("FT", name("Tx")), ("T", lit("name")), ("V", lit("old"))])),
            (11, field(vec![("FT", name("Btn")), ("AP", field(vec![("N", field(vec![("On", reference(30)), ("Off", reference(31))]))]))])),
            (12, field(vec![("Kids", Object::Array(vec![reference(20), reference(21)]))])),
            (13, field(vec![("FT", name("Ch")), ("Ff", Object::Integer(0x20000)), ("Opt", Object::Array(vec![lit("X"), Object::Array(vec![lit("e"), lit("Y")]), Object::Integer(3)]))])),
            (20, field(vec![("FT", name("Ch")), ("Opt", Object::Array(vec![lit("A"), lit("B")]))])),
            (21, field(vec![("FT", name("Btn")), ("Ff", Object::Integer(0x10000))])),
            (30, stream(vec![])),
            (31, stream(vec![])),
        ],
    );
    Form::load_doc(doc).unwrap()
}

#[test]
fn loaded_fields_are_counted_and_classified_in_level_order() {
    let f = mixed_form();
    assert_eq!(f.len(), 5);
    assert!(!f.is_empty());
    assert_eq!(
        f.get_all_types(),
        vec![FieldType::Text, FieldType::CheckBox, FieldType::ComboBox, FieldType::ListBox, FieldType::Button]
    );
    assert_eq!(f.get_object_id(3), id(20));
    assert_eq!(f.get_name(0), Some(bytes("name")));
    assert_eq!(f.get_name(1), None);
}

#[test]
fn radio_and_unknown_classification() {
    let doc = document(
        vec![10, 11, 12],
        vec![
            (10, field(vec![("FT", name("Btn")), ("Ff", Object::Integer(0x8000))])),
            (11, field(vec![("FT", name("Btn")), ("Ff", Object::Integer(0x4000))])),
            (12, field(vec![("FT", name("Sig"))])),
        ],
    );
    let f = Form::load_doc2(doc).unwrap();
    assert_eq!(f.get_all_types(), vec![FieldType::Radio, FieldType::Radio, FieldType::Unknown]);
    assert_eq!(f.get_state(2), FieldState::Unknown);
}

#[test]
fn set_text_then_state_reads_it_back() {
    let mut f = mixed_form();
    assert_eq!(f.set_text(0, bytes("Hello")), Ok(()));
    match f.get_state(0) {
        FieldState::Text { text, readonly, required } => {
            assert_eq!(text, bytes("Hello"));
            assert!(!readonly);
            assert!(!required);
        }
        other => panic!("unexpected state {:?}", other),
    }
    // The field has no rectangle, so its appearance could not be regenerated.
    assert_eq!(f.warnings, vec![AppearanceError::NoRectangle]);
}

#[test]
fn check_box_twice_is_like_once() {
    let mut f = mixed_form();
    assert_eq!(f.set_check_box(1, true), Ok(()));
    let once: Vec<(Vec<u8>, Option<Vec<u8>>)> = ["V", "AS"]
        .iter()
        .map(|k| (bytes(k), match lookup(field_dict(&f, 1), k) { Some(Object::Name(b)) => Some(b.clone()), _ => None }))
        .collect();
    assert_eq!(f.set_check_box(1, true), Ok(()));
    let twice: Vec<(Vec<u8>, Option<Vec<u8>>)> = ["V", "AS"]
        .iter()
        .map(|k| (bytes(k), match lookup(field_dict(&f, 1), k) { Some(Object::Name(b)) => Some(b.clone()), _ => None }))
        .collect();
    assert_eq!(once, twice);
    assert_eq!(twice[0].1, Some(bytes("On")));
    assert_eq!(twice[1].1, Some(bytes("On")));
    assert_eq!(f.set_check_box(1, false), Ok(()));
    assert_eq!(f.get_state(1), FieldState::CheckBox { is_checked: false, readonly: false, required: false });
}

#[test]
fn check_box_without_appearance_uses_yes() {
    let doc = document(vec![10], vec![(10, field(vec![("FT", name("Btn")), ("Ff", Object::Integer(6))]))]);
    let mut f = Form::load_doc(doc).unwrap();
    assert_eq!(f.set_check_box(0, true), Ok(()));
    assert_eq!(f.get_state(0), FieldState::CheckBox { is_checked: true, readonly: true, required: true });
}

#[test]
fn radio_rejects_a_choice_outside_its_options() {
    let doc = document(
        vec![10],
        vec![
            (10, field(vec![("FT", name("Btn")), ("Ff", Object::Integer(0x8000)), ("Kids", Object::Array(vec![reference(11), reference(12)]))])),
            (11, field(vec![("AP", field(vec![("N", field(vec![("A", reference(13)), ("Off", reference(13))]))]))])),
            (12, field(vec![("AP", field(vec![("N", field(vec![("Off", reference(13)), ("B", reference(13))]))]))])),
            (13, stream(vec![])),
        ],
    );
    let mut f = Form::load_doc(doc).unwrap();
    assert_eq!(f.set_radio(0, bytes("bogus")), Err(ValueError::InvalidSelection));
    assert_eq!(f.set_radio(0, bytes("B")), Ok(()));
    match f.get_state(0) {
        FieldState::Radio { selected, options, .. } => {
            assert_eq!(selected, bytes("B"));
            assert_eq!(options, vec![bytes("A"), bytes("B")]);
        }
        other => panic!("unexpected state {:?}", other),
    }
}

#[test]
fn single_select_list_box_takes_one_choice() {
    let mut f = mixed_form();
    assert_eq!(f.set_list_box(3, vec![bytes("A"), bytes("B")]), Err(ValueError::TooManySelected));
    assert_eq!(f.set_list_box(3, vec![bytes("C")]), Err(ValueError::InvalidSelection));
    assert_eq!(f.set_list_box(3, vec![bytes("B")]), Ok(()));
    assert!(matches!(f.get_state(3), FieldState::ListBox { ref selected, .. } if *selected == vec![bytes("B")]));
    assert_eq!(f.set_list_box(3, vec![]), Ok(()));
    assert!(matches!(lookup(field_dict(&f, 3), "V"), Some(Object::Null)));
    assert_eq!(
        f.get_state(3),
        FieldState::ListBox {
            selected: vec![],
            options: vec![bytes("A"), bytes("B")],
            multiselect: false,
            readonly: false,
            required: false
        }
    );
}

#[test]
fn multiselect_list_box_stores_an_array() {
    let doc = document(
        vec![10],
        vec![(10, field(vec![("FT", name("Ch")), ("Ff", Object::Integer(0x200000)), ("Opt", Object::Array(vec![lit("A"), lit("B")]))]))],
    );
    let mut f = Form::load_doc(doc).unwrap();
    assert_eq!(f.set_list_box(0, vec![bytes("A"), bytes("B")]), Ok(()));
    assert!(matches!(lookup(field_dict(&f, 0), "V"), Some(Object::Array(a)) if a.len() == 2));
    assert!(matches!(f.get_state(0), FieldState::ListBox { ref selected, multiselect: true, .. } if *selected == vec![bytes("A"), bytes("B")]));
}

#[test]
fn combo_box_options_and_free_text() {
    let mut f = mixed_form();
    match f.get_state(2) {
        FieldState::ComboBox { options, editable, selected, .. } => {
            assert_eq!(options, vec![bytes("X"), bytes("Y")]);
            assert!(!editable);
            assert!(selected.is_empty());
        }
        other => panic!("unexpected state {:?}", other),
    }
    assert_eq!(f.set_combo_box(2, bytes("Z")), Err(ValueError::InvalidSelection));
    assert_eq!(f.set_combo_box(2, bytes("Y")), Ok(()));
    assert!(matches!(f.get_state(2), FieldState::ComboBox { ref selected, .. } if *selected == vec![bytes("Y")]));

    let doc = document(vec![10], vec![(10, field(vec![("FT", name("Ch")), ("Ff", Object::Integer(0x60000))]))]);
    let mut g = Form::load_doc(doc).unwrap();
    assert_eq!(g.set_combo_box(0, bytes("free")), Ok(()));
}

#[test]
fn setters_reject_other_field_types() {
    let mut f = mixed_form();
    assert_eq!(f.set_check_box(0, true), Err(ValueError::TypeMismatch));
    assert_eq!(f.set_radio(0, bytes("A")), Err(ValueError::TypeMismatch));
    assert_eq!(f.set_list_box(0, vec![]), Err(ValueError::TypeMismatch));
    assert_eq!(f.set_combo_box(0, bytes("A")), Err(ValueError::TypeMismatch));
    assert_eq!(f.set_text(1, bytes("A")), Err(ValueError::TypeMismatch));
    assert_eq!(f.set_text_fs(4, bytes("A"), 10), Err(ValueError::TypeMismatch));
    assert_eq!(f.set_text_fs_ro(3, bytes("A"), 10), Err(ValueError::TypeMismatch));
    assert_eq!(f.set_check_box(4, true), Err(ValueError::TypeMismatch));
}

fn text_form(da: &str, ap: bool) -> Form {
    let mut entries = vec![
        ("FT", name("Tx")),
        ("Rect", Object::Array(vec![Object::Integer(0), Object::Integer(0), Object::Integer(100), Object::Integer(20)])),
        ("DA", lit(da)),
    ];
    if ap {
        entries.push(("AP", field(vec![("N", reference(11))])));
    }
    let old = vec![
        Operation { operator: bytes("re"), operands: vec![] },
        Operation { operator: bytes("bt"), operands: vec![] },
        Operation { operator: bytes("Tj"), operands: vec![lit("stale")] },
        Operation { operator: bytes("rg"), operands: vec![] },
    ];
    let doc = document(vec![10], vec![(10, field(entries)), (11, stream(old))]);
    Form::load_doc(doc).unwrap()
}

fn appearance_ops(f: &Form) -> &Vec<Operation> {
    let sid = match lookup(field_dict(f, 0), "AP") {
        Some(Object::Dictionary(ap)) => match lookup(ap, "N") {
            Some(Object::Reference(sid)) => *sid,
            _ => panic!("no normal appearance"),
        },
        _ => panic!("no appearance dictionary"),
    };
    match node(&f.document, sid) {
        Object::Stream(Stream { operations: Some(ops), rewritten: true, .. }) => ops,
        _ => panic!("appearance not rewritten"),
    }
}

#[test]
fn regenerated_appearance_uses_the_fallback_size() {
    let mut f = text_form("/Helv 0 Tf 0 g", true);
    assert_eq!(f.set_text_fs(0, bytes("Hello"), 10), Ok(()));
    assert!(f.warnings.is_empty());
    let ops = appearance_ops(&f);
    let names: Vec<Vec<u8>> = ops.iter().map(|o| o.operator.clone()).collect();
    let expected: Vec<Vec<u8>> =
        ["re", "rg", "BMC", "q", "BT", "Tf", "g", "Tm", "Tj", "ET", "Q", "EMC"].iter().map(|s| bytes(s)).collect();
    assert_eq!(names, expected);
    assert!(matches!(&ops[5].operands[..], [Object::Name(n), Object::Integer(10)] if *n == bytes("Helv")));
    assert!(matches!(&ops[6].operands[..], [Object::Real(0)]));
    assert!(matches!(&ops[7].operands[..],
        [Object::Integer(1), Object::Integer(0), Object::Integer(0), Object::Integer(1), Object::Real(2000), Object::Real(5000)]));
    assert!(matches!(&ops[8].operands[..], [Object::String(t, _)] if *t == bytes("Hello")));
}

#[test]
fn regenerated_appearance_keeps_the_directive_font() {
    let mut f = text_form("/Cour 9 Tf 1 0 0 rg", true);
    assert_eq!(f.set_text(0, bytes("x")), Ok(()));
    let ops = appearance_ops(&f);
    assert!(matches!(&ops[5].operands[..], [Object::Name(n), Object::Integer(9)] if *n == bytes("Cour")));
    assert_eq!(ops[6].operator, bytes("rg"));
    assert!(matches!(&ops[6].operands[..], [Object::Real(1000), Object::Real(0), Object::Real(0)]));
    assert!(matches!(&ops[7].operands[5], Object::Real(4500)));
}

#[test]
fn missing_appearance_gets_a_new_stream() {
    let mut f = text_form("", false);
    assert_eq!(f.set_text_fs_ro(0, bytes("Hi"), 8), Ok(()));
    assert!(f.warnings.is_empty());
    let ops = appearance_ops(&f);
    assert_eq!(ops.len(), 10);
    assert!(matches!(&ops[3].operands[..], [Object::Name(n), Object::Integer(8)] if *n == bytes("Helv")));
    assert!(matches!(lookup(field_dict(&f, 0), "Ff"), Some(Object::Integer(1))));
    assert_eq!(f.document.max_id, 12);
}

#[test]
fn two_level_radio_tree_gives_one_field() {
    let doc = document(
        vec![10],
        vec![
            (10, field(vec![("FT", name("Btn")), ("Ff", Object::Integer(0x8000)), ("Kids", Object::Array(vec![reference(11), reference(12)]))])),
            (11, field(vec![("Parent", reference(10)), ("AS", name("Off")), ("AP", field(vec![("N", field(vec![("Yes", reference(13)), ("Off", reference(13))]))]))])),
            (12, field(vec![("Parent", reference(10)), ("AS", name("Off")), ("AP", field(vec![("N", field(vec![("Off", reference(13)), ("No", reference(13))]))]))])),
            (13, stream(vec![])),
        ],
    );
    let f = Form::load_doc(doc).unwrap();
    assert_eq!(f.len(), 1);
    assert_eq!(f.get_type(0), FieldType::Radio);
    match f.get_state(0) {
        FieldState::Radio { options, selected, .. } => {
            assert_eq!(options, vec![bytes("Yes"), bytes("No")]);
            assert!(selected.is_empty());
        }
        other => panic!("unexpected state {:?}", other),
    }
}

#[test]
fn radio_kid_without_appearance_is_named_by_position() {
    let doc = document(
        vec![10],
        vec![
            (10, field(vec![("FT", name("Btn")), ("Ff", Object::Integer(0x8000)), ("V", name("1")), ("Kids", Object::Array(vec![reference(11), reference(12)]))])),
            (11, field(vec![])),
            (12, field(vec![])),
        ],
    );
    let f = Form::load_doc(doc).unwrap();
    assert_eq!(
        f.get_state(0),
        FieldState::Radio { selected: bytes("1"), options: vec![bytes("0"), bytes("1")], readonly: false, required: false }
    );
}

#[test]
fn strict_load_stops_at_a_dangling_reference_and_lenient_load_skips_it() {
    let make = || document(vec![10, 99], vec![(10, field(vec![("FT", name("Tx"))]))]);
    assert_eq!(Form::load_doc(make()).err(), Some(LoadError::NoSuchReference(id(99))));
    let f = Form::load_doc2(make()).unwrap();
    assert_eq!(f.len(), 1);
}

#[test]
fn strict_load_rejects_an_entry_that_is_not_a_reference() {
    let mut doc = document(vec![10], vec![(10, field(vec![("FT", name("Tx"))]))]);
    doc.objects[1] = (id(2), field(vec![("Fields", Object::Array(vec![reference(10), Object::Integer(4)]))]));
    assert_eq!(Form::load_doc(doc).err(), Some(LoadError::NotAReference));
}

#[test]
fn load_reports_missing_structure() {
    let mut doc = document(vec![], vec![]);
    doc.trailer = Dictionary::new();
    assert_eq!(Form::load_doc2(doc).err(), Some(LoadError::StructureError(StructureProblem::NoRoot)));
    let mut doc = document(vec![], vec![]);
    doc.objects[0] = (id(1), field(vec![]));
    assert_eq!(Form::load_doc(doc).err(), Some(LoadError::StructureError(StructureProblem::NoAcroForm)));
    let mut doc = document(vec![], vec![]);
    doc.objects[1] = (id(2), field(vec![]));
    assert_eq!(Form::load_doc(doc).err(), Some(LoadError::StructureError(StructureProblem::NoFields)));
}

#[test]
fn inline_form_dictionary_and_referenced_field_array() {
    let doc = Document {
        objects: vec![
            (id(1), field(vec![("AcroForm", field(vec![("Fields", reference(3))]))])),
            (id(3), Object::Array(vec![reference(4)])),
            (id(4), field(vec![("FT", name("Tx"))])),
        ],
        trailer: dict(vec![("Root", reference(1))]),
        max_id: 4,
    };
    let f = Form::load_doc(doc).unwrap();
    assert_eq!(f.form_ids, vec![id(4)]);
}

#[test]
fn removed_field_keeps_its_index_and_reads_unknown() {
    let mut f = mixed_form();
    assert_eq!(f.remove_field(0), Ok(()));
    assert_eq!(f.len(), 5);
    assert_eq!(f.get_type(0), FieldType::Unknown);
    assert_eq!(f.get_type(1), FieldType::CheckBox);
    assert_eq!(f.remove_field(0), Err(ValueError::NotFound));
}

#[test]
fn font_directives_parse_exactly() {
    let f = parse_font(b"/Helv 12 Tf 0 g").unwrap();
    assert_eq!((f.name, f.size, f.color), (bytes("Helv"), 12000, Color::Gray(0)));
    let f = parse_font(b"  /F1   -7 Tf 1 2 3 4 k").unwrap();
    assert_eq!((f.name, f.size, f.color), (bytes("F1"), -7000, Color::Cmyk(1000, 2000, 3000, 4000)));
    let f = parse_font(b"/F2 10.5 Tf 0.5 g").unwrap();
    assert_eq!((f.size, f.color), (10500, Color::Gray(500)));
    let f = parse_font(b"/F3 .25 Tf -.1234 1. 0 rg").unwrap();
    assert_eq!((f.size, f.color), (250, Color::Rgb(-123, 1000, 0)));
    let f = parse_font(b"/F4 9 Tf 1.2.3 x g").unwrap();
    assert_eq!(f.color, Color::Gray(0));
    assert!(parse_font(b"/Helv 0 Tf 0 g").is_none());
    assert!(parse_font(b"").is_none());
    assert!(parse_font(b"12 Tf").is_none());
}

#[test]
fn decimal_digits() {
    assert_eq!(decimal_bytes(0), bytes("0"));
    assert_eq!(decimal_bytes(907), bytes("907"));
}

fn text_field_with(ap: Object, extra: Vec<(u32, Object)>) -> Form {
    let entries = vec![
        ("FT", name("Tx")),
        ("Rect", Object::Array(vec![Object::Real(0), Object::Real(30000), Object::Integer(100), Object::Integer(0)])),
        ("AP", ap),
    ];
    let mut objects = vec![(10, field(entries))];
    objects.extend(extra);
    Form::load_doc(document(vec![10], objects)).unwrap()
}

#[test]
fn appearance_failures_are_warnings_and_the_value_stands() {
    let mut f = text_field_with(field(vec![("N", reference(11))]), vec![(11, field(vec![]))]);
    assert_eq!(f.set_text(0, bytes("v")), Ok(()));
    assert_eq!(f.warnings, vec![AppearanceError::NotAStream]);
    assert!(matches!(f.get_state(0), FieldState::Text { ref text, .. } if *text == bytes("v")));

    let undecoded = Object::Stream(Stream { dict: Dictionary::new(), content: vec![1, 2], operations: None, rewritten: false });
    let mut f = text_field_with(field(vec![("N", reference(11))]), vec![(11, undecoded)]);
    assert_eq!(f.regenerate_text_appearance(0, 10), Err(AppearanceError::NoText));
    assert_eq!(f.set_text(0, bytes("v")), Ok(()));
    assert_eq!(f.warnings, vec![AppearanceError::NotDecoded]);

    let mut f = text_field_with(field(vec![("N", field(vec![]))]), vec![]);
    assert_eq!(f.set_text(0, bytes("v")), Ok(()));
    assert_eq!(f.warnings, vec![AppearanceError::BadAppearanceEntry]);
}

#[test]
fn appearance_dictionary_without_normal_entry_gets_a_stream() {
    let mut f = text_field_with(field(vec![("D", reference(3))]), vec![]);
    assert_eq!(f.set_text_fs(0, bytes("v"), 10), Ok(()));
    assert!(f.warnings.is_empty());
    let ops = appearance_ops(&f);
    // Lower edge 30 above upper edge 0: dy is 30, so y is 15 - 0.4 * 10.
    assert!(matches!(&ops[5].operands[5], Object::Real(11000)));
}

#[test]
fn decimal_font_size_is_a_real_operand() {
    let mut f = text_form("/Helv 10.5 Tf 0.25 g", true);
    assert_eq!(f.set_text(0, bytes("x")), Ok(()));
    let ops = appearance_ops(&f);
    assert!(matches!(&ops[5].operands[..], [Object::Name(_), Object::Real(10500)]));
    assert!(matches!(&ops[6].operands[..], [Object::Real(250)]));
    assert!(matches!(&ops[7].operands[5], Object::Real(5250)));
}

#[test]
fn option_entries_of_other_shapes_are_dropped() {
    let doc = document(
        vec![10],
        vec![(10, field(vec![("FT", name("Ch")), ("Opt", Object::Array(vec![
            Object::Array(vec![lit("a"), lit("b"), lit("c")]),
            Object::Array(vec![lit("e"), lit("P")]),
            Object::Array(vec![lit("Q")]),
        ]))]))],
    );
    let f = Form::load_doc(doc).unwrap();
    assert!(matches!(f.get_state(0), FieldState::ListBox { ref options, .. } if *options == vec![bytes("P")]));
}

#[test]
fn wrong_kind_root_or_field_list_is_malformed_structure() {
    let mut doc = document(vec![], vec![]);
    doc.trailer = dict(vec![("Root", Object::Integer(1))]);
    assert_eq!(Form::load_doc2(doc).err(), Some(LoadError::StructureError(StructureProblem::RootNotDictionary)));
    let mut doc = document(vec![], vec![]);
    doc.objects[1] = (id(2), field(vec![("Fields", Object::Integer(7))]));
    assert_eq!(Form::load_doc2(doc).err(), Some(LoadError::StructureError(StructureProblem::FieldsNotArray)));
}

#[test]
fn multi_choice_list_box_stores_exactly_the_strings() {
    let doc = document(
        vec![10],
        vec![(10, field(vec![("FT", name("Ch")), ("Ff", Object::Integer(0x200000)), ("Opt", Object::Array(vec![lit("A"), lit("B"), lit("C")]))]))],
    );
    let mut f = Form::load_doc(doc).unwrap();
    assert_eq!(f.set_list_box(0, vec![bytes("C"), bytes("A")]), Ok(()));
    match lookup(field_dict(&f, 0), "V") {
        Some(Object::Array(a)) => {
            assert_eq!(a.len(), 2);
            assert!(matches!(&a[0], Object::String(b, StringFormat::Literal) if *b == bytes("C")));
            assert!(matches!(&a[1], Object::String(b, StringFormat::Literal) if *b == bytes("A")));
        }
        other => panic!("unexpected value {:?}", other),
    }
}

#[test]
fn name_that_is_not_utf8_reads_as_none() {
    let doc = document(
        vec![10, 11],
        vec![
            (10, field(vec![("FT", name("Tx")), ("T", Object::String(vec![0xFF], StringFormat::Literal))])),
            (11, field(vec![("FT", name("Tx")), ("T", Object::String("né".as_bytes().to_vec(), StringFormat::Hexadecimal))])),
        ],
    );
    let f = Form::load_doc(doc).unwrap();
    assert_eq!(f.get_all_names(), vec![None, Some("né".as_bytes().to_vec())]);
}
