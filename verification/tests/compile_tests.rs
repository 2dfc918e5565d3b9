use zilang::compile::{compile_txt, format_string_exp};

fn no_file(_p: &str) -> bool {
    false
}

fn no_text(_p: &str) -> Result<String, String> {
    Err(String::from("unreadable"))
}

fn run(txt: &str) -> Option<(String, String, Result<(), String>)> {
    compile_txt(String::from("main"), txt, &no_file, &no_text)
}

const HEAD: &str = "Error while compiling the file main. Line ";

#[test]
fn a_declaration_with_a_value() {
    let (script, functions, res) = run("int a = 5;").unwrap();
    assert_eq!(res, Ok(()));
    assert_eq!(functions, "");
    assert_eq!(
        script,
        "mov rbx, 0\nadd rbx, r15\nmov rax, rbx\nmov rdx, r15\nadd rdx, 4\ncmp rax, rdx\njg _invalid_address\npush rax\nmov rax, 5\npop rbx\nmov [_stack+ rbx], eax\n"
    );
}

#[test]
fn an_unknown_value_is_refused() {
    let (script, _, res) = run("int a = b;").unwrap();
    assert_eq!(script, "");
    assert_eq!(res, Err(format!("{}1: we found an incorrect value: b", HEAD)));
}

#[test]
fn break_outside_a_loop() {
    let (_, _, res) = run("break;").unwrap();
    assert_eq!(res, Err(format!("{}1: You can't use the break keyword outside of a loop bloc.", HEAD)));
}

#[test]
fn a_loop_with_a_break() {
    let (script, _, res) = run("loop {\nbreak;\n}").unwrap();
    assert_eq!(res, Ok(()));
    assert_eq!(script, "_loop_1:\njmp _end_loop_1\njmp _loop_1\n_end_loop_1:\n");
}

#[test]
fn a_function_needs_its_return_type() {
    let (_, _, res) = run("func f(int x) int {\n}").unwrap();
    assert_eq!(res, Err(format!("{}2: Incorrect type return definition for the function f.", HEAD)));
}

#[test]
fn a_closed_block_that_was_never_opened() {
    assert!(run("}").is_none());
}

#[test]
fn unknown_instruction() {
    let (_, _, res) = run("hello;").unwrap();
    assert_eq!(res, Err(format!("{} Syntax error", format!("{}1:", HEAD))));
}

#[test]
fn an_import_is_compiled_in_place() {
    let exists = |p: &str| p == "lib.vu";
    let read = |_p: &str| -> Result<String, String> { Ok(String::from("int b = 1;")) };
    let (script, _, res) = compile_txt(String::from("main"), "import lib.vu;", &exists, &read).unwrap();
    assert_eq!(res, Ok(()));
    assert_eq!(
        script,
        "mov rbx, 0\nadd rbx, r15\nmov rax, rbx\nmov rdx, r15\nadd rdx, 4\ncmp rax, rdx\njg _invalid_address\npush rax\nmov rax, 1\npop rbx\nmov [_stack+ rbx], eax\n"
    );
}

#[test]
fn imports_that_are_refused() {
    let (_, _, res) = run("import x.vu;").unwrap();
    assert_eq!(res, Err(format!("{}1: The file x.vu not exists.", HEAD)));
    let (_, _, res) = run("import x.txt;").unwrap();
    assert_eq!(res, Err(format!("{}1: You only can import .vu files.", HEAD)));
}

#[test]
fn a_function_and_its_call() {
    let (script, functions, res) = run("func f(int x) -> int {\nreturn x;\n}\nint a = f(2);").unwrap();
    assert_eq!(res, Ok(()));
    assert!(functions.starts_with("f:\n"));
    assert!(functions.ends_with("movsx rax, dword[_stack+ rax]\nret\nret\n"));
    assert!(script.contains("mov [_stack+r15+ 4], eax\npush r15\nadd r15, 4\ncall f\npop r15\n"));
}

#[test]
fn if_and_else() {
    let (script, _, res) = run("int a = 1;\nif a == 1 {\na = 2;\n} else {\na = 3;\n}").unwrap();
    assert_eq!(res, Ok(()));
    assert!(script.contains("cmp rax, 0\nje _end_condition_1\n"));
    assert!(script.contains("jmp _real_end_condition_1\n_end_condition_1:\n"));
    assert!(script.ends_with("_real_end_condition_1:\n"));
}

#[test]
fn a_while_loop() {
    let (script, _, res) = run("int i = 0;\nwhile i < 3 {\ni = i + 1;\n}").unwrap();
    assert_eq!(res, Ok(()));
    assert!(script.contains("_loop_1:\n"));
    assert!(script.contains("mov r12, 60\ncall _operation\n"));
    assert!(script.contains("cmp rax, 0\nje _end_loop_1\n"));
    assert!(script.ends_with("jmp _loop_1\n_end_loop_1:\n"));
}

#[test]
fn a_for_loop() {
    let (script, _, res) = run("for int i = 0 : i < 3 : i = i + 1 {\n}").unwrap();
    assert_eq!(res, Ok(()));
    assert!(script.contains("jmp _loop_1_end_start_inst\n_loop_1:\n"));
    assert!(script.contains("_loop_1_end_start_inst:\n"));
    assert!(script.ends_with("jmp _loop_1\n_end_loop_1:\n"));
}

#[test]
fn a_macro_call() {
    let (script, _, res) = run("int a = 1;\n!dn(a);").unwrap();
    assert_eq!(res, Ok(()));
    assert!(script.ends_with("mov [_stack+r15+ 4], rax\ndn [_stack+r15+ 4] \n"));
    let (_, _, res) = run("!nope(1);").unwrap();
    assert_eq!(res, Err(format!("{}1: The macro nope doesn't exists.", HEAD)));
}

#[test]
fn an_array_filled_at_once() {
    let (script, _, res) = run("int t[2] = {1, 2};").unwrap();
    assert_eq!(res, Ok(()));
    assert!(script.starts_with(
        "mov dword[_stack+r15+ 0], 0\nmov rdx, 0\nadd rdx, r15\nmov rax, 8\nadd rax, r15\nmov [_stack+ rax], edx\n"
    ));
    assert!(script.ends_with("mov rax, 1\nmov [_stack+r15+ 0], eax\nmov rax, 2\nmov [_stack+r15+ 4], eax\n"));
}

#[test]
fn marks_around_operators() {
    assert_eq!(format_string_exp("a+(b*2)"), "aµ+µ(µbµ*µ2µ)µ");
    assert_eq!(format_string_exp("a<=b"), "aµ<=µb");
}

fn error_of(txt: &str) -> String {
    match run(txt) {
        Some((_, _, Err(e))) => e,
        other => panic!("no error: {:?}", other),
    }
}

fn line1(t: &str) -> String {
    format!("{}1:{}", HEAD, t)
}

#[test]
fn expression_errors_of_the_compiler() {
    assert_eq!(error_of("int a = ;"), line1(" Syntax error."));
    assert_eq!(error_of("int a = 1;a[1 = 2;"), line1(" You forgot to close with '['"));
    assert_eq!(
        error_of("int a = 1;int b = $a;"),
        line1(" You tried to dereference the variable a 1 times but you only have the right to dereference it 0 times")
    );
    assert_eq!(error_of("int a = 1;int* p = a;"), line1(" The two types are incompatibles."));
    assert_eq!(error_of("int a = $'c';"), line1(" You tried to dereference a character"));
    assert_eq!(error_of("b = 1;"), line1(" The variable b doesn't exists."));
}

#[test]
fn call_errors_of_the_compiler() {
    let f = "func f() -> int {}";
    assert_eq!(error_of(&format!("{};f;", f)), line1(" You have to specifie args between parenthesis."));
    assert_eq!(error_of(&format!("{};f(1;", f)), line1(" Parenthesis never closes."));
    assert_eq!(
        error_of(&format!("{};f(1);", f)),
        line1(" We found 1 elements in the call of the function f but f takes 0 arguments.")
    );
    assert_eq!(error_of("!dn(1;"), line1(" Syntax error."));
    assert_eq!(error_of("!dn);"), line1(" Parenthesis missing."));
    assert_eq!(error_of("!dn();"), line1(" Found 0 arguments when 1 was expected"));
}

#[test]
fn declaration_errors_of_the_compiler() {
    assert_eq!(error_of("int;"), line1(" You should initialise a variable."));
    assert_eq!(error_of("int t[2;"), line1(" You forgot to close the bracket with '['"));
    assert_eq!(error_of("int t[x];"), line1(" You didn't write a correct number between the brackets"));
    assert_eq!(error_of("int t[2] = {1, 2"), line1(" You forgot to close a bracket."));
    assert_eq!(
        error_of("int t[1] = {1, 2}"),
        line1(" You put 2 values between bracket when 1 at maximum was attempt.")
    );
    assert_eq!(error_of("abc {"), line1(" Syntax error, we found abc behind brackets."));
}

#[test]
fn keyword_errors_of_the_compiler() {
    assert_eq!(error_of("continue;"), line1(" You can't use the continue keyword outside of a loop bloc."));
    assert_eq!(error_of("loop {break x;}"), line1(" we found text after the break keyword: x"));
    assert_eq!(error_of("return 1;"), line1(" You can't use the return keyword outside of a function."));
    assert_eq!(
        error_of("int a = 1;if a == 1 {} else x {}"),
        line1(" We found x when nothing or the if keyword was attempt.")
    );
    assert_eq!(
        error_of("for int i = 0 : i < 3 {}"),
        line1(" Bad declaration of the for loop, we found 2 instructions instead of 3.")
    );
    assert_eq!(error_of("func f() -> int {func g() -> int {}}"), line1(" You can't define a function in a function."));
    assert_eq!(error_of("func f -> int {}"), line1(" Syntax error."));
    assert_eq!(error_of("func f( -> int {}"), line1(" Bad parenthesis."));
    assert_eq!(
        error_of("func f(int) -> int {}"),
        line1(" We found int when a variable definition was attempt.")
    );
}
