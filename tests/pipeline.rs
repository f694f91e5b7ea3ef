use compile_runner::pipeline::{
    artifact_paths, assemble, compiler_args, decode_or_empty, run_output, split_inputs,
    temp_name, InputText, Program, NAME_LEN,
};

fn program(text: &str, delimiter: &str, output: &str) -> Program {
    Program {
        code: "int main() { return 0; }".to_owned(),
        input: InputText {
            text: text.to_owned(),
            delimiter: delimiter.to_owned(),
        },
        output: output.to_owned(),
    }
}

#[test]
fn hello_with_no_input_matches_expected() {
    let p = program("", "\n\n", "Hello\r\n");
    let inputs = split_inputs(&p.input);
    assert_eq!(inputs, vec!["".to_owned()]);
    let runs = vec![Some(b"Hello\n".to_vec())];
    let r = assemble(&p, &vec![], &vec![], &runs);
    assert_eq!(r.compiler.out, "");
    assert_eq!(r.compiler.err, "");
    assert_eq!(r.output, "Hello\n");
    assert_eq!(r.diff, "");
}

#[test]
fn squares_in_one_run_match_expected() {
    let p = program("5 1 2 3 4 5", "\n\n", "1\r\n4\r\n9\r\n16\r\n25\r\n");
    let inputs = split_inputs(&p.input);
    assert_eq!(inputs, vec!["5 1 2 3 4 5".to_owned()]);
    let runs = vec![Some(b"1\n4\n9\n16\n25\n".to_vec())];
    let r = assemble(&p, &vec![], &vec![], &runs);
    assert_eq!(r.compiler.out, "");
    assert_eq!(r.compiler.err, "");
    assert_eq!(r.output, "1\n4\n9\n16\n25\n");
    assert_eq!(r.diff, "");
}

#[test]
fn runs_are_joined_in_input_order() {
    let p = program("1\n\n2\n\n3", "\n\n", "2\n4\n6");
    let inputs = split_inputs(&p.input);
    assert_eq!(inputs, vec!["1", "2", "3"]);
    let runs = vec![Some(b"2".to_vec()), Some(b"4".to_vec()), Some(b"6".to_vec())];
    let r = assemble(&p, &vec![], &vec![], &runs);
    assert_eq!(r.output, "2\n4\n6");
    assert_eq!(r.diff, "");
}

#[test]
fn compile_failure_gives_diagnostics_and_empty_output() {
    let p = program("", "\n\n", "");
    let err = b"main.cpp:1:1: error: expected unqualified-id".to_vec();
    let runs = vec![None];
    let r = assemble(&p, &vec![], &err, &runs);
    assert!(!r.compiler.err.is_empty());
    assert_eq!(r.compiler.err, "main.cpp:1:1: error: expected unqualified-id");
    assert_eq!(r.output, "");
    assert_eq!(r.diff, "");
}

#[test]
fn mismatch_is_rendered_as_diff() {
    let p = program("", "\n\n", "a\r\nb\r\n");
    let runs = vec![Some(b"a\r\nc\r\n".to_vec())];
    let r = assemble(&p, &vec![], &vec![], &runs);
    assert_eq!(r.output, "a\nc\n");
    assert_eq!(r.diff, " a\n-b\n+c\n \n");
}

#[test]
fn failed_or_undecodable_runs_leave_empty_slots() {
    let p = program("x\n\ny\n\nz", "\n\n", "");
    let runs = vec![Some(b"1".to_vec()), None, Some(vec![0xff, 0xfe])];
    let r = assemble(&p, &vec![], &vec![], &runs);
    assert_eq!(r.output, "1\n\n");
}

#[test]
fn decode_or_empty_on_invalid_utf8() {
    assert_eq!(decode_or_empty(&vec![0xc3, 0x28]), "");
    assert_eq!(decode_or_empty(&"héllo".as_bytes().to_vec()), "héllo");
    assert_eq!(run_output(&None), "");
    assert_eq!(run_output(&Some(b"ok\n".to_vec())), "ok\n");
}

#[test]
fn temp_name_is_alphanumeric_of_fixed_length() {
    let a = temp_name();
    assert_eq!(a.chars().count(), NAME_LEN);
    assert!(a.chars().all(|c| c.is_ascii_alphanumeric()));
    let b = temp_name();
    assert_eq!(b.len(), 7);
}

#[test]
fn artifact_paths_and_compiler_flags() {
    let a = artifact_paths("Ab3dE9z");
    assert_eq!(a.binary, "/tmp/Ab3dE9z");
    assert_eq!(a.source, "/tmp/Ab3dE9z.cpp");
    assert_eq!(
        compiler_args(&a),
        vec!["-std=c++14", "-Wall", "-O0", "-o", "/tmp/Ab3dE9z", "/tmp/Ab3dE9z.cpp"]
    );
}
