use fury_tracer::json_parser::{
    deser_int, deser_int_vec, deser_pair, deser_usize, deser_usize_array, deser_usize_vec,
    map_chunks, parse_transform_expression, parse_vec3_str, JsonScalar, ValueError,
};
use fury_tracer::json_structs::{SingleOrVec, TransformField, Transformations};

fn field(id: usize, data: Vec<f64>) -> TransformField<Vec<f64>> {
    TransformField { _data: data, _id: id }
}

fn globals() -> Transformations<Vec<f64>> {
    let mut t: Transformations<Vec<f64>> = Transformations::default();
    t.translation.push(field(1, vec![1.0, 2.0, 3.0]));
    t.translation.push(field(2, vec![4.0, 5.0, 6.0]));
    t.scaling.push(field(1, vec![2.0, 2.0, 2.0]));
    t.rotation.push(field(1, vec![90.0, 0.0, 1.0, 0.0]));
    t.composite.push(field(7, vec![0.0; 16]));
    t
}

fn ids(s: &SingleOrVec<TransformField<Vec<f64>>>) -> Vec<usize> {
    s.as_slice().iter().map(|f| f._id).collect()
}

#[test]
fn usize_from_number_and_string() {
    assert_eq!(deser_usize(JsonScalar::Number(Some(6))).unwrap(), 6);
    assert_eq!(deser_usize(JsonScalar::Text("6".to_string())).unwrap(), 6);
    assert_eq!(deser_usize(JsonScalar::Text("+42".to_string())).unwrap(), 42);
    assert_eq!(deser_usize(JsonScalar::Text("007".to_string())).unwrap(), 7);
}

#[test]
fn usize_rejections() {
    assert!(matches!(deser_usize(JsonScalar::Number(None)), Err(ValueError::InvalidInteger)));
    assert!(matches!(deser_usize(JsonScalar::Text("-1".to_string())), Err(ValueError::NotAnInteger)));
    assert!(matches!(deser_usize(JsonScalar::Text("".to_string())), Err(ValueError::NotAnInteger)));
    assert!(matches!(deser_usize(JsonScalar::Text("+".to_string())), Err(ValueError::NotAnInteger)));
    assert!(matches!(deser_usize(JsonScalar::Text(" 6".to_string())), Err(ValueError::NotAnInteger)));
    assert!(matches!(deser_usize(JsonScalar::Text("6a".to_string())), Err(ValueError::NotAnInteger)));
    assert!(matches!(
        deser_usize(JsonScalar::Text("99999999999999999999999".to_string())),
        Err(ValueError::NotAnInteger)
    ));
    match deser_usize(JsonScalar::Other("true".to_string())) {
        Err(ValueError::WrongType(d)) => assert_eq!(d, "true"),
        _ => panic!("expected a type error"),
    }
}

#[test]
fn usize_matches_std_parse() {
    for s in ["0", "1", "+0", "18446744073709551615", "18446744073709551616", "12x", "x", "٣", "+-1"] {
        let ours = deser_usize(JsonScalar::Text(s.to_string())).ok();
        assert_eq!(ours, s.parse::<usize>().ok(), "input {:?}", s);
    }
}

#[test]
fn usize_from_negative_number_is_refused() {
    assert!(matches!(deser_usize(JsonScalar::Number(Some(-1))), Err(ValueError::InvalidInteger)));
    assert!(matches!(deser_usize(JsonScalar::Text("-1".to_string())), Err(ValueError::NotAnInteger)));
    assert_eq!(deser_usize(JsonScalar::Number(Some(0))).unwrap(), 0);
}

#[test]
fn int_from_number_and_string() {
    assert_eq!(deser_int(JsonScalar::Number(Some(-3))).unwrap(), -3);
    assert_eq!(deser_int(JsonScalar::Text("-3".to_string())).unwrap(), -3);
    assert_eq!(deser_int(JsonScalar::Text("+5".to_string())).unwrap(), 5);
    assert_eq!(deser_int(JsonScalar::Text("-2147483648".to_string())).unwrap(), i32::MIN);
    assert!(matches!(deser_int(JsonScalar::Text("2147483648".to_string())), Err(ValueError::NotAnInteger)));
    assert!(matches!(deser_int(JsonScalar::Text("-".to_string())), Err(ValueError::NotAnInteger)));
    assert!(matches!(deser_int(JsonScalar::Number(Some(1 << 32))), Err(ValueError::InvalidInteger)));
    assert!(matches!(deser_int(JsonScalar::Text("4294967296".to_string())), Err(ValueError::NotAnInteger)));
    assert_eq!(deser_int(JsonScalar::Number(Some(i32::MIN as i64))).unwrap(), i32::MIN);
}

#[test]
fn int_matches_std_parse() {
    for s in ["0", "-0", "+7", "-7", "2147483647", "-2147483649", "--1", "-+1", "1 "] {
        let ours = deser_int(JsonScalar::Text(s.to_string())).ok();
        assert_eq!(ours, s.parse::<i32>().ok(), "input {:?}", s);
    }
}

#[test]
fn numeric_lists() {
    assert_eq!(deser_usize_vec("0 2 3").unwrap(), vec![0, 2, 3]);
    assert_eq!(deser_usize_vec("  1\t2\n 3  ").unwrap(), vec![1, 2, 3]);
    assert_eq!(deser_usize_vec("").unwrap(), Vec::<usize>::new());
    assert!(matches!(deser_usize_vec("1 two 3"), Err(ValueError::BadComponent { position: 1 })));
    assert!(matches!(deser_usize_vec("x 2 y"), Err(ValueError::BadComponent { position: 0 })));
    assert!(matches!(deser_int_vec("1 2 --3"), Err(ValueError::BadComponent { position: 2 })));
    assert!(matches!(deser_usize_array::<2>("1 z"), Err(ValueError::BadComponent { position: 1 })));
    assert_eq!(deser_int_vec("-1 0 4").unwrap(), vec![-1, 0, 4]);
}

#[test]
fn arrays_and_pairs() {
    let a: [usize; 3] = deser_usize_array::<3>("1 2 3").unwrap();
    assert_eq!(a, [1, 2, 3]);
    match deser_usize_array::<3>("1 2") {
        Err(ValueError::WrongCount { expected, found }) => {
            assert_eq!(expected, 3);
            assert_eq!(found, 2);
        }
        _ => panic!("expected a count error"),
    }
    assert_eq!(deser_pair("800 600").unwrap(), [800, 600]);
    assert!(matches!(deser_pair("800"), Err(ValueError::WrongCount { expected: 2, found: 1 })));
    assert!(matches!(deser_pair("800 x"), Err(ValueError::BadComponent { position: 1 })));
    assert!(matches!(deser_pair("x 600"), Err(ValueError::BadComponent { position: 0 })));
    assert!(matches!(deser_pair("-1 y"), Err(ValueError::BadComponent { position: 0 })));
}

fn parse_f64(cs: &[char]) -> Result<f64, String> {
    cs.iter().collect::<String>().parse::<f64>().map_err(|e| e.to_string())
}

#[test]
fn vec3_components() {
    assert_eq!(parse_vec3_str("25 25.5 -3", parse_f64).unwrap(), [25.0, 25.5, -3.0]);
    assert_eq!(parse_vec3_str("  1\t2\n3 ", parse_f64).unwrap(), [1.0, 2.0, 3.0]);
    assert!(matches!(
        parse_vec3_str("1 2", parse_f64),
        Err(ValueError::WrongCount { expected: 3, found: 2 })
    ));
    assert!(matches!(
        parse_vec3_str("1 2 3 4", parse_f64),
        Err(ValueError::WrongCount { expected: 3, found: 4 })
    ));
    match parse_vec3_str("1 x y", parse_f64) {
        Err(ValueError::Component(m)) => assert_eq!(m, "x".parse::<f64>().unwrap_err().to_string()),
        _ => panic!("expected the parser's message"),
    }
    let ints = parse_vec3_str("7 8 9", |cs: &[char]| {
        cs.iter().collect::<String>().parse::<usize>().map_err(|e| e.to_string())
    });
    assert_eq!(ints.unwrap(), [7, 8, 9]);
}

#[test]
fn transform_expression_selects_by_kind_and_id() {
    let g = globals();
    let out = parse_transform_expression("t2 s1 T1 r1 c7 x1 t9 t q", &g);
    assert_eq!(ids(&out.translation), vec![2, 1]);
    assert_eq!(ids(&out.scaling), vec![1]);
    assert_eq!(ids(&out.rotation), vec![1]);
    assert_eq!(ids(&out.composite), vec![7]);
    assert_eq!(out.translation.as_slice()[0]._data, vec![4.0, 5.0, 6.0]);
}

#[test]
fn transform_expression_lists_follow_their_counts() {
    let g = globals();
    let out = parse_transform_expression("t1 t2 s1 s5", &g);
    assert!(matches!(out.translation, SingleOrVec::Multiple(ref v) if v.len() == 2));
    assert!(matches!(out.scaling, SingleOrVec::Single(_)));
    assert!(matches!(out.rotation, SingleOrVec::Empty));
    assert!(matches!(out.composite, SingleOrVec::Empty));
    let d: Transformations<Vec<f64>> = Transformations::default();
    assert!(matches!(d.translation, SingleOrVec::Empty));
    assert!(matches!(d.rotation, SingleOrVec::Empty));
    assert!(matches!(d.scaling, SingleOrVec::Empty));
    assert!(matches!(d.composite, SingleOrVec::Empty));
}

#[test]
fn transform_expression_empty() {
    let g = globals();
    let out = parse_transform_expression("", &g);
    assert!(out.translation.is_empty());
    assert!(out.rotation.is_empty());
    assert!(out.scaling.is_empty());
    assert!(out.composite.is_empty());
}

#[test]
fn transform_lookup_takes_first_match() {
    let mut g = globals();
    g.translation.push(field(1, vec![9.0, 9.0, 9.0]));
    let f = g.find_translation(1).unwrap();
    assert_eq!(f._data, vec![1.0, 2.0, 3.0]);
    assert!(g.find_scaling(5).is_none());
    assert_eq!(g.find_composite(7).unwrap()._id, 7);
    assert_eq!(g.find_rotation(1).unwrap()._id, 1);
}

#[test]
fn usize_list_written_out_reads_back() {
    let xs: Vec<usize> = vec![0, 7, 42, 1000, usize::MAX];
    let text = xs.iter().map(|x| x.to_string()).collect::<Vec<_>>().join(" ");
    assert_eq!(deser_usize_vec(&text).unwrap(), xs);
    for n in [i64::MIN, -1, 0, 6, 123456, i64::MAX] {
        assert_eq!(
            deser_usize(JsonScalar::Number(Some(n))).ok(),
            deser_usize(JsonScalar::Text(n.to_string())).ok()
        );
    }
    for n in [i64::MIN, i32::MIN as i64 - 1, i32::MIN as i64, -3, 0, 17, i32::MAX as i64, 1 << 32] {
        assert_eq!(
            deser_int(JsonScalar::Number(Some(n))).ok(),
            deser_int(JsonScalar::Text(n.to_string())).ok()
        );
    }
}

#[test]
fn values_grouped_in_runs() {
    let nums = [1.0, 2.0, 3.0, 4.0, 5.0, 6.0];
    let points = map_chunks(&nums, 3, |c: &[f64]| Ok((c[0], c[1], c[2]))).unwrap();
    assert_eq!(points, vec![(1.0, 2.0, 3.0), (4.0, 5.0, 6.0)]);
    let pairs = map_chunks(&nums, 2, |c: &[f64]| Ok(c[0] + c[1])).unwrap();
    assert_eq!(pairs, vec![3.0, 7.0, 11.0]);
    let none = map_chunks(&[] as &[f64], 3, |c: &[f64]| Ok(c.len())).unwrap();
    assert!(none.is_empty());
    assert!(matches!(
        map_chunks(&nums[..5], 3, |c: &[f64]| Ok(c.len())),
        Err(ValueError::NotDivisible { chunk_len: 3 })
    ));
    let refused = map_chunks(&nums, 2, |c: &[f64]| if c[0] > 2.0 { Err(format!("bad {}", c[0])) } else { Ok(c[0]) });
    match refused {
        Err(ValueError::Component(m)) => assert_eq!(m, "bad 3"),
        _ => panic!("expected the first refusal"),
    }
}
