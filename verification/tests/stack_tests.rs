use zilang::tools::split;
use zilang::stack::Stack;

#[test]
fn pop_gives_back_the_last_pushed() {
    let mut s: Stack<i32> = Stack::new();
    assert!(s.is_empty());
    s.push(1);
    s.push(2);
    assert_eq!(s.size(), 2);
    assert_eq!(*s.val(), 2);
    assert_eq!(s.pop(), 2);
    assert_eq!(s.size(), 1);
    assert_eq!(*s.val(), 1);
    assert_eq!(s.pop(), 1);
    assert!(s.is_empty());
}

#[test]
fn size_counts_pushes_not_popped() {
    let mut s: Stack<u8> = Stack::new();
    s.push(1);
    s.push(2);
    s.pop();
    s.push(3);
    s.push(4);
    s.pop();
    assert_eq!(s.size(), 4 - 2);
}

#[test]
fn split_and_join() {
    assert_eq!(split("a;b;;c", ";"), vec!["a", "b", "", "c"]);
    assert_eq!(split("a;b;;c", ";").join(";"), "a;b;;c");
    assert_eq!(split("abc", ""), vec!["", "a", "b", "c", ""]);
    assert_eq!(split("abc", "").join(""), "abc");
    assert_eq!(split("", ""), vec!["", ""]);
    assert_eq!(zilang::compiler::tools::tools::split("x y", ""), vec!["", "x", " ", "y", ""]);
}

#[test]
fn no_piece_holds_the_splitter() {
    for (text, sep) in [("a;;b;", ";"), ("xxaxx", "xx"), ("abc", "b")] {
        for piece in split(text, sep) {
            assert!(!piece.contains(sep));
        }
    }
}

#[test]
fn size_after_many_pushes_and_pops() {
    let mut s: Stack<usize> = Stack::new();
    let (mut n, mut m) = (0, 0);
    for k in 0..50 {
        if k % 3 == 2 && !s.is_empty() {
            s.pop();
            m += 1;
        } else {
            s.push(k);
            n += 1;
        }
        assert_eq!(s.size(), n - m);
    }
}
