use zilang::compiler::hammer::memory::Memory;
use zilang::compiler::hammer::prog_manager::type_manager::ProgManager;
use zilang::compiler::hammer::tools::bloc_tools::{
    ComplexCharTools, DoTools, FuncTools, IfTools, InstructionTools, KeyWordTools, MacroCallTools, ReturnTools,
    WhileTools,
};
use zilang::compiler::hammer::tools::var_tools::{CIdentTools, ComplexTypeTools, DeclTools};
use zilang::hammer::{is_in_a_string, setup_inst};

#[test]
fn if_labels() {
    let mut t = IfTools::new(3);
    assert_eq!(t.compare_exp(), "\npop rax\nand rax, rax\nje next_comp_if_3_0");
    assert_eq!(t.end_bloc(), "\njmp global_end_if_3:\nnext_comp_if_3_0:");
    assert_eq!(t.nb_cond, 1);
    assert_eq!(t.build_asm(), "\nnext_comp_if_3_1:\nglobal_end_if_3:");
}

#[test]
fn while_labels() {
    let t = WhileTools::new(7);
    assert_eq!(t.compare_exp(), "\npop rax\nand rax, rax\nje end_while_7");
    assert_eq!(t.build_asm(), "\nend_while_7");
}

#[test]
fn do_loop_labels() {
    let t = DoTools::new();
    assert_eq!(t.new_keyword("for", 5), "");
    assert_eq!(t.new_keyword("while", 5), "\nbegin_loop_5:");
    assert_eq!(t.new_keyword("do", 12), "\nbegin_loop_12:");
    assert_eq!(t.compare_exp(5), "\npop rax\nand rax, rax\nje end_loop_5");
    assert_eq!(t.end_loop(5), "\njmp begin_loop_5\nend_loop_5:");
    assert_eq!(t.end(9), (9, String::new()));
}

#[test]
fn keyword_instruction_emits_nothing() {
    let t = KeyWordTools::new();
    assert_eq!(t.end(), "");
}

#[test]
fn return_of_a_value() {
    let mut r = ReturnTools::new();
    assert_eq!(r.stars, -1);
    r.set_exp(2);
    assert_eq!(r.stars, 2);
    assert_eq!(r.build_asm(), "\npop rax\nret");
}

#[test]
fn macro_calls() {
    let mut m = MacroCallTools::new();
    assert_eq!(m.def_name("nope".to_string()).unwrap_err(), "Unknow macro: nope");
    assert!(m.def_name("exit".to_string()).is_ok());
    assert_eq!(m.end().unwrap_err(), "0 args has been found for the macro exit when 1 was attempts");
    m.new_expression();
    assert_eq!(m.end().unwrap(), "\nexit [rsp + 0]\nadd rsp, 8");
}

#[test]
fn escaped_characters() {
    let mut c = ComplexCharTools::new();
    c.new_symbol('\\');
    c.new_symbol('n');
    assert_eq!(c.end(), Ok(10));
    let mut c = ComplexCharTools::new();
    c.new_symbol('a');
    assert_eq!(c.end(), Ok(97));
    let mut c = ComplexCharTools::new();
    c.new_symbol('\\');
    c.new_symbol('q');
    assert_eq!(c.end(), Err("This char: \\q doesn't exists.".to_string()));
}

#[test]
fn assignment_instruction() {
    let mut i = InstructionTools::new();
    assert_eq!(i.build_asm(), "");
    i.set_ident(4);
    i.set_equal_code("+=".to_string());
    assert_eq!(
        i.build_asm(),
        "\npop rax     ; result of the expression\npop rbx     ; addr of the left ident\n\nadd dword[_stack + rbx], eax"
    );
}

#[test]
fn function_label() {
    let mut f = FuncTools::new();
    assert_eq!(f.set_ident("main".to_string()), "main:");
}

#[test]
fn identifier_read_and_dereferenced() {
    let mut memory = Memory::new();
    memory.new_var("int".to_string(), "x".to_string(), 1);
    let mut c = CIdentTools::new();
    c.def_ident("x".to_string());
    assert!(c.new_symbol("*".to_string()).is_ok());
    let (raised, code) = c.end(&memory).unwrap();
    assert_eq!(raised, "1 0 4");
    assert_eq!(code, "\nmov rax, 0\n_deref_dword 1\npush rax    ; We push the value of a new identificator");
    let mut d = CIdentTools::new();
    d.def_ident("y".to_string());
    assert_eq!(d.end(&memory).unwrap_err(), "y isn't an axisting variable.");
    let mut e = CIdentTools::new();
    assert!(e.new_symbol("&".to_string()).is_ok());
    assert_eq!(e.new_symbol("&".to_string()).unwrap_err(), "You can't dereferance like this..");
    let mut f = CIdentTools::new();
    f.def_ident("x".to_string());
    assert!(f.new_symbol("*".to_string()).is_ok());
    assert!(f.new_symbol("*".to_string()).is_ok());
    assert_eq!(f.end(&memory).unwrap_err(), "Bad dereferencment");
}

#[test]
fn declaration_with_assignment() {
    let mut pm = ProgManager::new();
    pm.add_type("int", 4);
    let mut memory = Memory::new();
    let mut d = DeclTools::new();
    d.def_type(&pm, 0, 0);
    assert_eq!(d.tname, "int");
    d.def_name("v".to_string(), &mut memory);
    assert_eq!(d.addr, 0);
    assert_eq!(memory.si(), 4);
    d.def_equal_operator();
    assert_eq!(d.build_asm(&memory), "\npop rax\nmov dword[_stack + 0], eax");
    assert!(d.check_exp("0".to_string()).is_ok());
    assert_eq!(d.check_exp("1".to_string()).unwrap_err(), "Not the good type");
}

#[test]
fn complex_type_read() {
    let memory = Memory::new();
    let mut t = ComplexTypeTools::new();
    t.new_star();
    assert_eq!((t.stars, t.size), (1, 4));
    t.set_name("char".to_string(), &memory);
    assert_eq!(t.end(), "char 1 1");
}

#[test]
fn instructions_made_ready_to_cut() {
    let mut a = "a+=1".to_string();
    setup_inst(&mut a);
    assert_eq!(a, "a = a  +1");
    let mut b = "b=2".to_string();
    setup_inst(&mut b);
    assert_eq!(b, "b = 2");
    let mut c = "  x  ".to_string();
    setup_inst(&mut c);
    assert_eq!(c, "x");
    assert!(!is_in_a_string(&"a".to_string(), "a".to_string()));
}
