use zilang::compiler::hammer::definitions::Type;
use zilang::compiler::hammer::memory::Memory;

fn int_type() -> Type {
    Type { name: "int".to_string(), size: 4, stars: 0 }
}

#[test]
fn variables_take_the_next_addresses() {
    let mut m = Memory::new();
    assert_eq!(m.si(), 0);
    assert_eq!(m.new_var("int".to_string(), "a".to_string(), 0), 0);
    assert_eq!(m.si(), 4);
    assert_eq!(m.new_var("char".to_string(), "c".to_string(), 0), 4);
    assert_eq!(m.si(), 5);
    let a = m.get_var_def_by_name(&"a".to_string()).unwrap();
    assert_eq!(a.addr, 0);
    assert_eq!(a.type_var.size, 4);
    assert!(m.get_var_def_by_name(&"zz".to_string()).is_err());
    assert_eq!(m.affect_to(0), "\nmov dword[_stack + 0], eax");
    assert_eq!(m.affect_to(4), "\nmov byte[_stack + 4], al");
}

#[test]
fn leaving_a_block_forgets_its_variables() {
    let mut m = Memory::new();
    m.new_var("int".to_string(), "a".to_string(), 0);
    m.jump_in();
    assert_eq!(m.new_var("int".to_string(), "a".to_string(), 0), 4);
    assert_eq!(m.get_var_def_by_name(&"a".to_string()).unwrap().addr, 4);
    m.new_var("char".to_string(), "b".to_string(), 0);
    assert_eq!(m.si(), 9);
    m.jump_out();
    assert_eq!(m.si(), 4);
    assert_eq!(m.get_var_def_by_name(&"a".to_string()).unwrap().addr, 0);
    assert!(m.get_var_def(&4).is_err());
    assert!(m.get_var_def(&8).is_err());
    assert!(m.get_var_def(&0).is_ok());
}

#[test]
fn functions_are_taken_off_when_called() {
    let mut m = Memory::new();
    assert!(!m.is_function("f"));
    m.new_function("f".to_string(), vec![int_type()], int_type());
    assert_eq!(m.si(), 8);
    assert!(m.is_function("f"));
    assert!(m.good_nb_arg("f", 1).is_ok());
    assert!(!m.is_function("f"));
    m.new_function("f".to_string(), vec![int_type()], int_type());
    assert_eq!(m.good_nb_arg("f", 2).unwrap_err(), "not the good number of arg");
}

#[test]
fn arguments_of_a_call() {
    let mut m = Memory::new();
    m.new_function("g".to_string(), vec![int_type()], int_type());
    m.new_function("g".to_string(), vec![int_type()], int_type());
    assert_eq!(m.handle_arg("g", 1, 0).unwrap_err(), "Not the good type for the call.");
    assert_eq!(m.handle_arg("g", 0, 0).unwrap(), "\nmov dword[_stack + 16], eax");
    assert_eq!(m.si(), 20);
}

#[test]
fn sizes_and_dereferences() {
    let m = Memory::new();
    assert_eq!(m.get_type_size(1, "anything"), 4);
    assert_eq!(m.get_type_size(0, "char"), 1);
    assert_eq!(m.get_type_size(0, "void"), 0);
    assert_eq!(m.deref_var(4, 2), "\n_deref_dword 2");
    assert_eq!(m.deref_var(4, 0), "");
}
