use fury_tracer::output::output_subpath;

fn strs(v: &[&str]) -> Vec<String> {
    v.iter().map(|s| s.to_string()).collect()
}

#[test]
fn output_folder_follows_inputs() {
    let cs = strs(&["/", "home", "inputs", "hw2", "scenes"]);
    assert_eq!(output_subpath(&cs, "inputs", Some("scenes".to_string())), Some(strs(&["hw2", "scenes"])));
}

#[test]
fn output_folder_takes_first_inputs_component() {
    let cs = strs(&["inputs", "a", "inputs", "b"]);
    assert_eq!(output_subpath(&cs, "inputs", Some("b".to_string())), Some(strs(&["a", "inputs", "b"])));
    let last = strs(&["x", "inputs"]);
    assert_eq!(output_subpath(&last, "inputs", Some("inputs".to_string())), Some(Vec::new()));
}

#[test]
fn output_folder_without_inputs_uses_folder_name() {
    let cs = strs(&["/", "tmp", "scenes"]);
    assert_eq!(output_subpath(&cs, "inputs", Some("scenes".to_string())), Some(strs(&["scenes"])));
    assert_eq!(output_subpath(&strs(&["/"]), "inputs", None), None);
    assert_eq!(output_subpath(&strs(&["Inputs"]), "inputs", None), None);
}
