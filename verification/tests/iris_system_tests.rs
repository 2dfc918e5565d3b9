use zilang::compiler::hammer::tokenizer::{TokenType, Tokenizer};
use zilang::compiler::tools::tools::extract_end_char;
use zilang::iris::arguments::Arguments;
use zilang::iris::system::{
    checked_columns_of, checked_comparable_value, checked_compose_line, checked_data_text_of, checked_get_arg_data,
    checked_get_primary_key, columns_of, comparable_value, compose_line, data_text_of, gather_row, get_arg_data,
    get_primary_key,
};
use zilang::iris::type_gestion::TypeGestion;

fn strings(ws: &[&str]) -> Vec<String> {
    ws.iter().map(|w| w.to_string()).collect()
}

#[test]
fn primary_key_is_the_first_word() {
    assert_eq!(get_primary_key("id INT\nname STRING\n"), "id");
    assert_eq!(checked_get_primary_key("id INT"), Some("id".to_string()));
    assert_eq!(checked_get_primary_key("   \nname STRING"), None);
}

#[test]
fn column_rank_and_name() {
    let data = "id INT\nname STRING\n";
    assert_eq!(get_arg_data(data, "name"), Some((1, "name".to_string())));
    assert_eq!(get_arg_data(data, "zz"), None);
    assert_eq!(checked_get_arg_data(data, "id"), Some(Some((0, "id".to_string()))));
    assert_eq!(checked_get_arg_data("id INT\n  \nname STRING\n", "name"), None);
}

#[test]
fn columns_with_their_ranks() {
    let cols = columns_of("id INT\n\nname STRING\n");
    assert_eq!(cols, vec![("id".to_string(), 0), ("name".to_string(), 2)]);
    assert_eq!(checked_columns_of("id INT\n  \n"), None);
}

#[test]
fn values_as_conditions_compare_them() {
    let tg = TypeGestion::new();
    assert_eq!(comparable_value(&tg, "VARCHAR(5)", "ab".to_string()), "195");
    assert_eq!(comparable_value(&tg, "BOOL", "true".to_string()), "1");
    assert_eq!(comparable_value(&tg, "BOOL", "no".to_string()), "0");
    assert_eq!(comparable_value(&tg, "INT", "12".to_string()), "12");
    let long: String = std::iter::repeat('\u{10FFFF}').take(3000).collect();
    assert_eq!(checked_comparable_value(&tg, "VARCHAR", long), None);
}

#[test]
fn new_line_text_and_side_files() {
    let tg = TypeGestion::new();
    let data = "id INT\nname VARCHAR(20) NOTNULL\nage INT DEFAULT 7\nbio STRING\nskip INT OTHER\n";
    let mut arg = Arguments::new();
    arg.set("name", "Bob");
    arg.set("bio", "a\nb");
    let (files, text) = compose_line(&tg, data, arg, "t_line_1", "1");
    assert_eq!(files, vec![("t_line_1_bio".to_string(), "a\nb".to_string())]);
    assert_eq!(text, Ok("d1\ndBob\nd7\nft_line_1_bio\n".to_string()));
}

#[test]
fn new_line_errors() {
    let tg = TypeGestion::new();
    let data = "id INT\nname STRING NOTNULL\nage INT\n";
    let mut arg = Arguments::new();
    arg.set("age", "x");
    arg.set("name", "Al");
    let (_, text) = compose_line(&tg, data, arg, "t", "1");
    assert_eq!(text, Err("The type x wasn't expected.".to_string()));
    let (_, text) = compose_line(&tg, data, Arguments::new(), "t", "1");
    assert_eq!(text, Err("The column name was defined with the NOT NULL parameter !".to_string()));
    let mut arg = Arguments::new();
    arg.set("name", "Al");
    let (_, text) = compose_line(&tg, data, arg, "t", "1");
    assert_eq!(text, Ok("d1\ndAl\ndNULL\n".to_string()));
    assert!(checked_compose_line(&tg, "id INT\nlonely\n", Arguments::new(), "t", "1").is_none());
}

#[test]
fn data_text_of_a_new_table() {
    let entries = vec![
        ("name".to_string(), "STRING".to_string()),
        ("age".to_string(), "INT DEFAULT".to_string()),
        (":table_name".to_string(), "x".to_string()),
        ("$age".to_string(), "7".to_string()),
    ];
    let mut arg = Arguments::new();
    arg.set("$age", "7");
    assert_eq!(
        data_text_of("id", "INT", &entries, &arg),
        Ok("id INT\nname STRING\nage INT DEFAULT 7\n".to_string())
    );
    assert_eq!(checked_data_text_of("id", "INT", &entries, &Arguments::new()), None);
    let bad = vec![("x".to_string(), "INT NOTNULL".to_string())];
    assert_eq!(
        data_text_of("id", "INT", &bad, &Arguments::new()),
        Err("NOTNULL keyword is unvalid here".to_string())
    );
    let worse = vec![("x".to_string(), "INT A B".to_string())];
    assert_eq!(
        checked_data_text_of("id", "INT", &worse, &Arguments::new()),
        Some(Err("INT A B isn't a valid parameter for a column.".to_string()))
    );
}

#[test]
fn selected_rows_are_gathered_by_column() {
    let mut gathered: Vec<Vec<String>> = vec![vec![], strings(&["x"])];
    gather_row(&mut gathered, true, &strings(&["a", "b"]));
    assert_eq!(gathered, vec![strings(&["a"]), strings(&["x", "b"])]);
    gather_row(&mut gathered, false, &strings(&["c", "d"]));
    assert_eq!(gathered, vec![strings(&["a"]), strings(&["x", "b"])]);
}

#[test]
fn token_groups_built_again_are_the_same() {
    let mut t = Tokenizer::new();
    t.init_token_groups();
    assert_eq!(t.group_map.len(), 9);
    assert_eq!(t.group_map[0].type_token, TokenType::Tuple);
    assert_eq!(t.group_map[8].type_token, TokenType::Program);
}

#[test]
fn trailing_stars_are_counted_and_removed() {
    let mut s = "int***".to_string();
    assert_eq!(extract_end_char(&mut s, '*'), 3);
    assert_eq!(s, "int");
    let mut plain = "abc".to_string();
    assert_eq!(extract_end_char(&mut plain, '*'), 0);
    assert_eq!(plain, "abc");
}

#[test]
fn postfix_conditions_run_on_a_stack() {
    let tg = TypeGestion::new();
    let less = |a: &str, _op: &str, b: &str| a.len() < b.len();
    assert_eq!(tg.evaluate_postfix_exp("1", &less), Some(true));
    assert_eq!(tg.evaluate_postfix_exp("0", &less), Some(false));
    assert_eq!(tg.evaluate_postfix_exp("a bb <", &less), Some(true));
    assert_eq!(tg.evaluate_postfix_exp("bb a <", &less), Some(false));
    assert_eq!(tg.evaluate_postfix_exp("a <", &less), None);
    assert_eq!(tg.evaluate_postfix_exp("", &less), None);
}
