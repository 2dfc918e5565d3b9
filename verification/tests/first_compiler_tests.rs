use zilang::iris::arguments::Arguments;
use zilang::compiler::tools::tools::Tools;
use zilang::expression::{get_prof_pointer, no_txt_after_keyword, tokenize_expression, Hammer};
use zilang::hammer::{Function, Type};
use zilang::iris::interpreteur::{Interpreteur, RequestKind};

fn hammer_with_f() -> Hammer {
    let int_type = Type { name: "int".to_string(), id: 0, size: 4, stars: 0 };
    Hammer {
        tools: Tools::new(),
        prog_name: "p".to_string(),
        line: 3,
        type_list: vec![int_type.clone(), Type { name: "char".to_string(), id: 1, size: 1, stars: 0 }],
        func_list: vec![("f".to_string(), Function { args: vec![], return_type: int_type })],
        defined_var_list: vec![],
        addr_list: vec![],
        stack_index: 0,
        jump_vars: vec![vec![]],
        type_return: None,
    }
}

fn words(ws: &[&str]) -> Vec<String> {
    ws.iter().map(|w| w.to_string()).collect()
}

#[test]
fn an_odd_run_of_minus_signs_negates_the_operand() {
    let h = hammer_with_f();
    assert_eq!(tokenize_expression(&h, words(&["a", "+", "-", "b"])).unwrap(), words(&["a", "+", "-1", "*", "b"]));
    assert_eq!(tokenize_expression(&h, words(&["-", "-", "b"])).unwrap(), words(&["b"]));
}

#[test]
fn a_call_is_one_element() {
    let h = hammer_with_f();
    assert_eq!(tokenize_expression(&h, words(&["f", "(", "x", ")", "*", " 2 ", ""])).unwrap(), words(&["f(x)", "*", "2"]));
}

#[test]
fn expression_errors() {
    let h = hammer_with_f();
    assert_eq!(
        tokenize_expression(&h, words(&["*", "a"])).unwrap_err(),
        "Error while compiling the file p. Line 3: There is a bad operator in your expression."
    );
    assert_eq!(
        tokenize_expression(&h, words(&["(", "a"])).unwrap_err(),
        "Error while compiling the file p. Line 3: The number of opening brackets is not the same as the number of closing brackets"
    );
}

#[test]
fn pointer_marks() {
    let h = hammer_with_f();
    let mut v = "$$a".to_string();
    assert_eq!(get_prof_pointer(&h, &mut v, false), Ok(2));
    assert_eq!(v, "a");
    let mut r = "&a".to_string();
    assert_eq!(get_prof_pointer(&h, &mut r, true), Ok(-1));
    let mut r2 = "&a".to_string();
    assert_eq!(
        get_prof_pointer(&h, &mut r2, false).unwrap_err(),
        "Error while compiling the file p. Line 3: You can't put a reference here."
    );
    let mut d = "&&a".to_string();
    assert_eq!(
        get_prof_pointer(&h, &mut d, true).unwrap_err(),
        "Error while compiling the file p. Line 3: You tried to get the adress of a direct value."
    );
    assert_eq!(d, "&a");
}

#[test]
fn requests_read_or_refused() {
    let i = Interpreteur::new();
    assert!(i.checked_read_request("SELECT a , b").is_none());
    assert!(i.checked_read_request("INSERT INTO").is_none());
    match i.checked_read_request("SELECT * FROM t") {
        Some(Ok(Some(plan))) => {
            assert!(matches!(plan.kind, RequestKind::Select));
            assert_eq!(plan.requests.len(), 1);
            assert_eq!(plan.requests[0].get(":table_name"), Some("t".to_string()));
        }
        _ => panic!("the selection should be read"),
    }
    match i.read_request("DROP TABLE a b") {
        Ok(Some(plan)) => assert_eq!(plan.requests.len(), 2),
        _ => panic!("the drop should be read"),
    }
}

#[test]
fn tokenizing_checked() {
    let mut t = zilang::compiler::hammer::tokenizer::Tokenizer::new();
    assert!(t.checked_tokenize("int abc".to_string()).is_none());
    let toks = t.checked_tokenize("int a;\n".to_string()).unwrap().unwrap();
    assert_eq!(toks.len(), 3);
}

#[test]
fn types_names_and_keywords() {
    let h = hammer_with_f();
    let mut n = "char**".to_string();
    let t = h.type_exists(&mut n).unwrap();
    assert_eq!((t.name.as_str(), t.id, t.size, t.stars), ("char", 1, 1, 2));
    assert_eq!(n, "char");
    let mut m = "long*".to_string();
    match h.type_exists(&mut m) {
        Err(e) => assert_eq!(e, "3 The type long not exists."),
        Ok(_) => panic!("long is no type"),
    }
    assert!(h.is_valid_name("abc_1").is_ok());
    assert_eq!(h.is_valid_name("_x").unwrap_err(), "A name can't start with '_' it's a vulcain private use.");
    assert_eq!(h.is_valid_name("a b").unwrap_err(), "a b is not a valid name for a variable.");
    assert!(no_txt_after_keyword(&h, "   ", "break").is_ok());
    assert_eq!(
        no_txt_after_keyword(&h, " x", "break").unwrap_err(),
        "Error while compiling the file p. Line 3: we found text after the break keyword:  x"
    );
    let fresh = Hammer::new("main.vu".to_string());
    assert_eq!(fresh.line, 1);
    assert_eq!(fresh.type_list.len(), 3);
    let mut v = "void".to_string();
    assert_eq!(fresh.type_exists(&mut v).unwrap().size, 0);
}

#[test]
fn conditions_kept_are_balanced() {
    let i = Interpreteur::new();
    let mut args = Arguments::new();
    let kept = i.checked_clean_the_condition("(a == true) AND b != 2".to_string(), &mut args).unwrap().unwrap();
    assert_eq!(kept.matches('(').count(), kept.matches(')').count());
    assert!(!kept.contains("true"));
    assert_eq!(args.get("a"), Some(String::new()));
    let mut args2 = Arguments::new();
    assert_eq!(i.checked_clean_the_condition("(a == 1".to_string(), &mut args2), Some(None));
    assert_eq!(args2.get("a"), Some(String::new()));
}

#[test]
fn condition_columns_and_booleans() {
    let i = Interpreteur::new();
    let mut args = Arguments::new();
    let kept = i.checked_clean_the_condition("t.c == true".to_string(), &mut args).unwrap().unwrap();
    assert_eq!(kept, "t.c == 1");
    assert_eq!(args.get("c"), Some("t".to_string()));
}

#[test]
fn declarations_fill_the_tables() {
    let mut h = hammer_with_f();
    let int_type = Type { name: "int".to_string(), id: 0, size: 4, stars: 0 };
    h.define_new_var("a".to_string(), int_type.clone());
    h.define_new_var("b".to_string(), int_type.clone());
    h.define_new_var("a".to_string(), int_type.clone());
    assert_eq!(h.stack_index, 12);
    assert!(h.var_exists("a"));
    assert!(!h.var_exists("c"));
    assert_eq!(h.get_addr("a"), 8);
    assert_eq!(h.get_addr("b"), 4);
    assert_eq!(h.get_var_def_by_name("b").name, "b");
    assert_eq!(h.jump_vars[0], vec![0, 4, 8]);
    assert!(h.define_new_function("g".to_string(), vec![], int_type.clone()).is_ok());
    assert!(h.type_return.is_some());
    assert_eq!(h.define_new_function("f".to_string(), vec![], int_type).unwrap_err(), "3 The function f already exists");
}
