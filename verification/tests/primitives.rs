use takolib::errors::TError;
use takolib::primitives::{
    bit_type, byte_size, byte_type, card, char_type, i32_type, num_bits, number_type, record,
    size, string_type, sum, type_type, unit_type, variable, void_type, Prim, TypeSet,
};

fn set_of(members: Vec<Prim>) -> TypeSet {
    TypeSet::from_vec(members)
}

#[test]
fn void() {
    assert_eq!(card(&void_type()), Ok(0));
    assert_eq!(size(&void_type()), Ok(0));
}

#[test]
fn unit() {
    assert_eq!(card(&unit_type()), Ok(1));
    assert_eq!(size(&unit_type()), Ok(0));
}

#[test]
fn tag1_type() {
    assert_eq!(card(&Prim::Tag(1, 1)), Ok(1));
    assert_eq!(size(&Prim::Tag(1, 1)), Ok(1));
}

#[test]
fn tag2_type() {
    assert_eq!(card(&Prim::Tag(0, 2)), Ok(1));
    assert_eq!(size(&Prim::Tag(0, 2)), Ok(2));
    assert_eq!(card(&Prim::Tag(1, 2)), Ok(1));
    assert_eq!(size(&Prim::Tag(1, 2)), Ok(2));
    assert_eq!(card(&Prim::Tag(2, 2)), Ok(1));
    assert_eq!(size(&Prim::Tag(2, 2)), Ok(2));
    assert_eq!(card(&Prim::Tag(3, 2)), Ok(1));
    assert_eq!(size(&Prim::Tag(3, 2)), Ok(2));
}

#[test]
fn tag4_type() {
    assert_eq!(card(&Prim::Tag(4, 3)), Ok(1));
    assert_eq!(size(&Prim::Tag(4, 3)), Ok(3));
}

#[test]
fn union_n_type() {
    let union2 = Prim::Union(set_of(vec![unit_type(), unit_type()]));
    assert_eq!(card(&union2), Ok(1));
    assert_eq!(size(&union2), Ok(0));
    let union3 = Prim::Union(set_of(vec![unit_type(), unit_type(), unit_type()]));
    assert_eq!(card(&union3), Ok(1));
    assert_eq!(size(&union3), Ok(0));
}

#[test]
fn bit() {
    let bitt = bit_type();
    assert_eq!(card(&bitt), Ok(2));
    assert_eq!(size(&bitt), Ok(1));
}

#[test]
fn trit_type() {
    let trit = sum(vec![unit_type(), unit_type(), unit_type()]).unwrap();
    assert_eq!(card(&trit), Ok(3));
    assert_eq!(size(&trit), Ok(2));
}

#[test]
fn nested_quad_type() {
    let quad = record(vec![bit_type(), bit_type()]).unwrap();
    assert_eq!(card(&quad), Ok(4));
    assert_eq!(size(&quad), Ok(2));
}

#[test]
fn quad_type() {
    let quad = sum(vec![unit_type(), unit_type(), unit_type(), unit_type()]).unwrap();
    assert_eq!(card(&quad), Ok(4));
    assert_eq!(size(&quad), Ok(2));
}

#[test]
fn pent_type() {
    let pent = sum(vec![
        unit_type(),
        unit_type(),
        unit_type(),
        unit_type(),
        unit_type(),
    ])
    .unwrap();
    assert_eq!(card(&pent), Ok(5));
    assert_eq!(size(&pent), Ok(3));
}

#[test]
fn pair_bool_ptrs() {
    let bool_ptr = Prim::Pointer(64, Box::new(bit_type()));
    let quad = record(vec![bool_ptr.clone(), bool_ptr]).unwrap();
    assert_eq!(card(&quad), Ok(4));
    assert_eq!(size(&quad), Ok(2 * 64));
}

#[test]
fn nested_nibble() {
    let quad = record(vec![bit_type(), bit_type()]).unwrap();
    let nibble = record(vec![quad.clone(), quad]).unwrap();
    assert_eq!(card(&nibble), Ok(16));
    assert_eq!(size(&nibble), Ok(4));
}

#[test]
fn padded_nibble() {
    let quad = record(vec![bit_type().padded(2), bit_type()]).unwrap();
    let nibble = record(vec![quad.clone(), quad]).unwrap();
    assert_eq!(card(&nibble), Ok(16));
    assert_eq!(size(&nibble), Ok(8));
}

#[test]
fn bool_and_fn() {
    let fn_ptr = Prim::StaticPointer(64);
    let closure = record(vec![bit_type(), fn_ptr]).unwrap();
    assert_eq!(size(&closure), Ok(65));
}

#[test]
fn bool_or_fn() {
    let fn_ptr = Prim::StaticPointer(64);
    let closure = sum(vec![bit_type(), fn_ptr]).unwrap();
    assert_eq!(size(&closure), Ok(65));
}

// The types that are made of bits.

#[test]
fn byte_has_eight_bits_and_256_values() {
    assert_eq!(size(&byte_type()), Ok(8));
    assert_eq!(card(&byte_type()), Ok(256));
}

#[test]
fn i32_has_32_bits() {
    assert_eq!(size(&i32_type()), Ok(32));
}

#[test]
fn i32_has_more_values_than_fit() {
    assert!(matches!(card(&i32_type()), Err(TError::LayoutOverflow(_))));
}

#[test]
fn unknown_types_are_variables() {
    assert_eq!(type_type(), variable("Type"));
    assert_eq!(number_type(), Prim::Variable("Number".to_string()));
    assert_eq!(char_type(), byte_type());
    assert_eq!(byte_size(), 8);
    assert_eq!(bit_type().ptr(), Prim::Pointer(64, Box::new(bit_type())));
}

#[test]
fn string_is_a_pointer_to_a_byte() {
    assert_eq!(string_type(), Prim::Pointer(64, Box::new(byte_type())));
    assert_eq!(size(&string_type()), Ok(64));
    assert_eq!(card(&string_type()), Ok(256));
}

// Errors of the layout.

#[test]
fn static_pointer_has_no_cardinality() {
    assert!(matches!(
        card(&Prim::StaticPointer(64)),
        Err(TError::StaticPointerCardinality(_))
    ));
    let closure = record(vec![bit_type(), Prim::StaticPointer(64)]).unwrap();
    assert!(matches!(card(&closure), Err(TError::StaticPointerCardinality(_))));
}

#[test]
fn variable_has_no_size() {
    assert_eq!(
        size(&number_type()),
        Err(TError::UnknownSizeOfVariableType("Number".to_string(), Default::default()))
    );
    assert!(matches!(
        record(vec![bit_type(), variable("T")]),
        Err(TError::UnknownSizeOfVariableType(_, _))
    ));
}

#[test]
fn values_have_no_layout() {
    assert_eq!(
        card(&Prim::I32(3)),
        Err(TError::UnknownCardOfAbstractType(Prim::I32(3), Default::default()))
    );
    assert_eq!(
        size(&Prim::Bool(true)),
        Err(TError::UnknownSizeOfAbstractType(Prim::Bool(true), Default::default()))
    );
}

#[test]
fn sizes_that_do_not_fit_are_errors() {
    let wide = Prim::Padded(i32::MAX, Box::new(Prim::Tag(0, 1)));
    assert!(matches!(size(&wide), Err(TError::LayoutOverflow(_))));
    let long = record(vec![Prim::Tag(0, i32::MAX), Prim::Tag(0, 1)]);
    assert!(matches!(long, Err(TError::LayoutOverflow(_))));
}

// Cardinality of products and unions of two types.

#[test]
fn product_of_two_multiplies() {
    let trit = sum(vec![unit_type(), unit_type(), unit_type()]).unwrap();
    let pair = Prim::Product(set_of(vec![bit_type(), trit.clone()]));
    assert_eq!(card(&pair), Ok(2 * 3));
    let either = Prim::Union(set_of(vec![bit_type(), trit]));
    assert_eq!(card(&either), Ok(2 + 3));
}

#[test]
fn a_set_holds_a_type_once() {
    let twice = Prim::Product(set_of(vec![bit_type(), bit_type()]));
    assert_eq!(card(&twice), Ok(2));
    let members = set_of(vec![bit_type(), unit_type(), bit_type()]);
    assert_eq!(members.len(), 2);
    assert_eq!(members.get(0), &bit_type());
    assert_eq!(members.get(1), &unit_type());
    assert!(members.contains(&unit_type()));
    assert!(!members.contains(&void_type()));
}

// Padding and tags.

#[test]
fn padding_adds_up() {
    assert_eq!(bit_type().padded(0), bit_type());
    assert_eq!(
        bit_type().padded(2).padded(3),
        Prim::Padded(5, Box::new(bit_type()))
    );
    assert!(bit_type().padded(2).can_pad(3));
    assert!(!Prim::Padded(i32::MAX, Box::new(bit_type())).can_pad(1));
}

#[test]
fn record_pads_each_member_by_those_before_it() {
    let row = record(vec![Prim::Tag(0, 3), Prim::Tag(1, 5), Prim::Tag(2, 7)]).unwrap();
    let expected = Prim::Product(set_of(vec![
        Prim::Tag(0, 3),
        Prim::Padded(3, Box::new(Prim::Tag(1, 5))),
        Prim::Padded(8, Box::new(Prim::Tag(2, 7))),
    ]));
    assert_eq!(row, expected);
    assert_eq!(size(&row), Ok(15));
}

#[test]
fn sum_tags_each_variant() {
    let either = sum(vec![unit_type(), Prim::Tag(9, 4)]).unwrap();
    let expected = Prim::Union(set_of(vec![
        Prim::Tag(0, 1),
        Prim::Product(set_of(vec![
            Prim::Tag(1, 1),
            Prim::Padded(1, Box::new(Prim::Tag(9, 4))),
        ])),
    ]));
    assert_eq!(either, expected);
}

#[test]
fn num_bits_is_the_least_width() {
    assert_eq!(num_bits(0), 0);
    assert_eq!(num_bits(1), 0);
    assert_eq!(num_bits(2), 1);
    assert_eq!(num_bits(3), 2);
    assert_eq!(num_bits(4), 2);
    assert_eq!(num_bits(5), 3);
    assert_eq!(num_bits(256), 8);
    assert_eq!(num_bits(257), 9);
    assert_eq!(num_bits(i32::MAX), 31);
    assert_eq!(num_bits(-7), 0);
}

// Merging of named values.

#[test]
fn merge_keeps_the_right_value_of_a_name() {
    let left = Prim::Struct(vec![
        ("a".to_string(), Prim::I32(1)),
        ("b".to_string(), Prim::I32(2)),
    ]);
    let right = Prim::Struct(vec![
        ("b".to_string(), Prim::I32(3)),
        ("c".to_string(), Prim::I32(4)),
    ]);
    assert_eq!(
        left.merge(right),
        Prim::Struct(vec![
            ("a".to_string(), Prim::I32(1)),
            ("b".to_string(), Prim::I32(3)),
            ("c".to_string(), Prim::I32(4)),
        ])
    );
}

#[test]
fn merge_of_a_bare_value_names_it_it() {
    let left = Prim::Struct(vec![("a".to_string(), Prim::I32(1))]);
    assert_eq!(
        left.merge(Prim::Bool(true)),
        Prim::Struct(vec![
            ("a".to_string(), Prim::I32(1)),
            ("it".to_string(), Prim::Bool(true)),
        ])
    );
    assert_eq!(Prim::I32(1).merge(Prim::I32(2)), Prim::I32(2));
}
