use zilang::compiler::hammer::tools::exp_tools::{ExpTools, ID1, NUM2, OP2};
use zilang::iris::type_gestion::TypeGestion;
use zilang::tools::{get_priority, Tools};

#[test]
fn sum_of_two_numbers_in_assembly() {
    let mut e = ExpTools::new();
    e.new_number("2".to_string());
    e.new_operator("+".to_string());
    e.new_number("3".to_string());
    let (stars, code) = e.end().unwrap();
    assert_eq!(stars, "-1");
    let raw = format!(
        "\n\nmov rbp, rsp\npush 2{NUM2}\npush 3{NUM2}\nmov r12, 0{OP2}\npop rax\nadd rsp, 8\npush rax"
    );
    let expected = raw
        .replace("push rax            ; Then save the result\npop rax", "")
        .replace("push rax\npop rax", "");
    assert_eq!(code, expected);
}

#[test]
fn product_binds_before_sum() {
    let mut e = ExpTools::new();
    e.new_number("1".to_string());
    e.new_operator("+".to_string());
    e.new_number("2".to_string());
    e.new_operator("*".to_string());
    e.new_number("3".to_string());
    let (_, code) = e.end().unwrap();
    let mul = code.find("mov r12, 3").unwrap();
    let add = code.find("mov r12, 0").unwrap();
    assert!(mul < add);
}

#[test]
fn parenthesis_groups_first() {
    let mut e = ExpTools::new();
    e.new_parenthesis("(".to_string());
    e.new_number("1".to_string());
    e.new_operator("+".to_string());
    e.new_number("2".to_string());
    e.new_parenthesis(")".to_string());
    e.new_operator("*".to_string());
    e.new_number("3".to_string());
    let (_, code) = e.end().unwrap();
    let add = code.find("mov r12, 0").unwrap();
    let mul = code.find("mov r12, 3").unwrap();
    assert!(add < mul);
}

#[test]
fn identifiers_of_one_type() {
    let mut e = ExpTools::new();
    assert!(e.new_cident("1".to_string()).is_ok());
    assert_eq!(e.new_cident("0".to_string()).unwrap_err(), "Bad type.");
    let (stars, code) = e.end().unwrap();
    assert_eq!(stars, "1");
    assert!(code.starts_with(&format!("\n\nmov rbp, rsp{ID1}0]")));
    assert!(code.ends_with("\nadd rsp, 16\npush rax"));
}

#[test]
fn condition_in_postfix_order() {
    let t = TypeGestion::new();
    assert_eq!(t.valid_infix_to_postfix("a == 1 AND b < 2"), "a 1 == b 2 < AND");
    assert_eq!(t.valid_infix_to_postfix("( a == 1 )"), "a 1 ==");
    assert_eq!(t.valid_infix_to_postfix("x OR ( y != 3 AND z >= 4 )"), "x y 3 != z 4 >= AND OR");
}

#[test]
fn postfix_keeps_the_operands_in_order() {
    let t = TypeGestion::new();
    let out = t.valid_infix_to_postfix("a > 1 OR b <= 2 AND c == 3");
    let operands: Vec<&str> = out.split(' ').filter(|w| !t.operator_exist(w)).collect();
    assert_eq!(operands, vec!["a", "1", "b", "2", "c", "3"]);
}

#[test]
fn priorities_of_conditions() {
    assert_eq!(get_priority("AND"), 1);
    assert_eq!(get_priority("OR"), 1);
    assert_eq!(get_priority("("), 3);
    assert_eq!(get_priority("=="), 2);
    let t = TypeGestion::new();
    assert_eq!(t.get_priority("OR"), 1);
}

#[test]
fn first_shell_tables() {
    let t = Tools::new();
    assert!(t.is_correct_name("ab_1-Z"));
    assert!(!t.is_correct_name("a b"));
    assert!(t.operator_exist("+"));
    assert!(!t.operator_exist("-"));
    assert_eq!(t.get_nth_operator(0), "+");
    assert_eq!(t.valid_infix_to_postfix("a + b"), "a b +");
}
