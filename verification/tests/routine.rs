use struct_layout::directive::Range;
use struct_layout::layout::{Failure, FieldLayout, Layout};
use struct_layout::model::{Attribute, Field, Structure};
use struct_layout::synth::{Check, Routine};
use struct_layout::test_structure;

fn loc(args: &str) -> Attribute {
    Attribute { name: "loc".to_string(), args: args.to_string(), text: format!("#[loc({})]", args) }
}

fn member(name: &str, ty: &str, range: &str) -> Field {
    Field {
        attrs: vec![loc(range)],
        vis: String::new(),
        ident: Some(name.to_string()),
        ty: ty.to_string(),
    }
}

fn header_routine() -> Routine {
    let s = Structure {
        attrs: vec![],
        vis: String::new(),
        ident: "Header".to_string(),
        fields: vec![member("a", "u8", "0:0"), member("b", "u16", "1:2")],
    };
    test_structure("size = 3", s).unwrap().routine
}

fn packed() -> Layout {
    Layout {
        size: 3,
        fields: vec![FieldLayout { offset: 0, size: 1 }, FieldLayout { offset: 1, size: 2 }],
    }
}

fn padded() -> Layout {
    Layout {
        size: 4,
        fields: vec![FieldLayout { offset: 0, size: 1 }, FieldLayout { offset: 2, size: 2 }],
    }
}

#[test]
fn packed_header_passes() {
    let r = header_routine();
    assert_eq!(r.evaluate(&packed()), vec![]);
    assert_eq!(r.run(&packed()), None);
}

#[test]
fn padded_header_fails_at_b_and_at_the_size() {
    let r = header_routine();
    let found = r.evaluate(&padded());
    assert_eq!(
        found,
        vec![
            Failure::Start { check: 1, expected: 1, actual: 2 },
            Failure::End { check: 1, expected: 2, actual: 3 },
            Failure::Size { expected: 3, actual: 4 },
        ]
    );
    assert_eq!(r.describe(&found[0]), Some("start of Header.b (u16)".to_string()));
    assert_eq!(r.describe(&found[1]), Some("end of Header.b (u16)".to_string()));
    assert_eq!(r.describe(&found[2]), Some("size of Header".to_string()));
}

#[test]
fn run_stops_at_the_first_failure() {
    let r = header_routine();
    assert_eq!(r.run(&padded()), Some(Failure::Start { check: 1, expected: 1, actual: 2 }));
}

#[test]
fn size_alone_can_fail() {
    let r = header_routine();
    let mut layout = packed();
    layout.size = 8;
    assert_eq!(r.evaluate(&layout), vec![Failure::Size { expected: 3, actual: 8 }]);
    assert_eq!(r.run(&layout), Some(Failure::Size { expected: 3, actual: 8 }));
}

#[test]
fn end_can_fail_while_start_passes() {
    let r = header_routine();
    let layout = Layout {
        size: 3,
        fields: vec![FieldLayout { offset: 0, size: 1 }, FieldLayout { offset: 1, size: 4 }],
    };
    assert_eq!(r.evaluate(&layout), vec![Failure::End { check: 1, expected: 2, actual: 4 }]);
}

#[test]
fn start_can_fail_while_end_passes() {
    let r = header_routine();
    let layout = Layout {
        size: 3,
        fields: vec![FieldLayout { offset: 0, size: 1 }, FieldLayout { offset: 2, size: 1 }],
    };
    assert_eq!(r.evaluate(&layout), vec![Failure::Start { check: 1, expected: 1, actual: 2 }]);
}

#[test]
fn check_of_one_field() {
    let c = Check { field: 0, label: "S.x (u32)".to_string(), range: Range { start: 4, end: 7 } };
    assert_eq!(c.evaluate(0, FieldLayout { offset: 4, size: 4 }), vec![]);
    assert_eq!(
        c.evaluate(9, FieldLayout { offset: 8, size: 4 }),
        vec![
            Failure::Start { check: 9, expected: 4, actual: 8 },
            Failure::End { check: 9, expected: 7, actual: 11 },
        ]
    );
}

#[test]
fn empty_field_at_offset_zero_ends_before_it_starts() {
    let c = Check { field: 0, label: "S.x (())".to_string(), range: Range { start: 0, end: 0 } };
    assert_eq!(
        c.evaluate(0, FieldLayout { offset: 0, size: 0 }),
        vec![Failure::End { check: 0, expected: 0, actual: -1 }]
    );
}

#[test]
fn end_beyond_sixty_four_bits() {
    let c = Check {
        field: 0,
        label: "S.x (T)".to_string(),
        range: Range { start: u64::MAX, end: u64::MAX },
    };
    assert_eq!(
        c.evaluate(0, FieldLayout { offset: u64::MAX, size: u64::MAX }),
        vec![Failure::End { check: 0, expected: u64::MAX, actual: 36893488147419103229 }]
    );
}

#[test]
fn describe_refuses_a_foreign_failure() {
    let r = header_routine();
    assert_eq!(r.describe(&Failure::Start { check: 2, expected: 0, actual: 1 }), None);
    assert_eq!(r.describe(&Failure::End { check: 7, expected: 0, actual: 1 }), None);
    assert_eq!(
        r.describe(&Failure::Start { check: 0, expected: 0, actual: 1 }),
        Some("start of Header.a (u8)".to_string())
    );
}

#[test]
fn checks_may_share_a_field() {
    let s = Structure {
        attrs: vec![],
        vis: String::new(),
        ident: "Twice".to_string(),
        fields: vec![Field {
            attrs: vec![loc("0:3"), loc("0:1")],
            vis: String::new(),
            ident: Some("x".to_string()),
            ty: "u32".to_string(),
        }],
    };
    let r = test_structure("size = 4", s).unwrap().routine;
    let layout = Layout { size: 4, fields: vec![FieldLayout { offset: 0, size: 4 }] };
    assert_eq!(r.evaluate(&layout), vec![Failure::End { check: 1, expected: 1, actual: 3 }]);
}

#[test]
fn layout_must_have_a_place_for_each_checked_field() {
    let r = header_routine();
    assert!(r.fits(&packed()));
    assert!(r.fits(&padded()));
    let short = Layout { size: 3, fields: vec![FieldLayout { offset: 0, size: 1 }] };
    assert!(!r.fits(&short));
    let empty = Routine { name: String::new(), structure: String::new(), checks: vec![], size: 0 };
    assert!(empty.fits(&Layout { size: 0, fields: vec![] }));
}
