use prism::display::{Bin, EitherOr, Enum, Opt};

#[test]
fn opt_moves_item_between_slots() {
    let mut o = Opt::new(5, false);
    assert!(!o.is_showing());
    assert_eq!(*o.inner(), 5);
    o.display(true);
    assert!(o.is_showing());
    assert_eq!((o.0, o.1), (Some(5), None));
    o.display(true);
    assert_eq!((o.0, o.1), (Some(5), None));
    *o.inner() = 6;
    o.display(false);
    assert_eq!((o.0, o.1), (None, Some(6)));
}

#[test]
fn either_or_shows_one_side() {
    let mut e = EitherOr::new("l", 2);
    assert!(e.0.is_showing() && !e.1.is_showing());
    e.display_left(false);
    assert!(!e.0.is_showing() && e.1.is_showing());
    assert_eq!(*e.left(), "l");
    *e.right() = 3;
    assert_eq!(*e.right(), 3);
}

#[test]
fn enum_shows_named_item_or_first() {
    let items = vec![("a".to_string(), 1), ("b".to_string(), 2), ("a".to_string(), 3), ("c".to_string(), 4)];
    let mut e = Enum::new(items, "b".to_string());
    let names: Vec<&str> = e.items.iter().map(|x| x.0.as_str()).collect();
    assert_eq!(names, vec!["a", "b", "c"]);
    assert_eq!(*e.items[0].1.inner(), 3);
    let shown: Vec<bool> = e.items.iter().map(|x| x.1.is_showing()).collect();
    assert_eq!(shown, vec![false, true, false]);
    assert_eq!(e.current(), "b");
    assert_eq!(*e.drawable().inner(), 2);
    e.display("c");
    assert_eq!(e.current(), "c");
    let shown: Vec<bool> = e.items.iter().map(|x| x.1.is_showing()).collect();
    assert_eq!(shown, vec![false, false, true]);
    e.display("missing");
    assert_eq!(e.current(), "a");
    let shown: Vec<bool> = e.items.iter().map(|x| x.1.is_showing()).collect();
    assert_eq!(shown, vec![true, false, false]);
    assert_eq!(*e.drawable().inner(), 3);
}

#[test]
fn bin_gives_access_to_both_parts() {
    let mut b = Bin(1u8, "x");
    *b.layout() = 2;
    *b.inner() = "y";
    assert_eq!((b.0, b.1), (2, "y"));
}
