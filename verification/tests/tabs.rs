use avt::tabs::Tabs;

#[test]
fn new() {
    assert_eq!(Tabs::new(1).as_slice(), &[] as &[usize]);
    assert_eq!(Tabs::new(8).as_slice(), &[] as &[usize]);
    assert_eq!(Tabs::new(9).as_slice(), &[8]);
    assert_eq!(Tabs::new(16).as_slice(), &[8]);
    assert_eq!(Tabs::new(17).as_slice(), &[8, 16]);
}

#[test]
fn tabs_set_unset_and_search() {
    let mut tabs = Tabs::new(30);
    tabs.set(5);
    tabs.set(5);
    assert_eq!(tabs.as_slice(), &[5, 8, 16, 24]);
    assert_eq!(tabs.after(5, 1), Some(8));
    assert_eq!(tabs.after(5, 3), Some(24));
    assert_eq!(tabs.after(24, 1), None);
    assert_eq!(tabs.before(16, 1), Some(8));
    assert_eq!(tabs.before(16, 2), Some(5));
    assert_eq!(tabs.before(5, 1), None);
    tabs.unset(8);
    assert_eq!(tabs.as_slice(), &[5, 16, 24]);
    tabs.contract(20);
    assert_eq!(tabs.as_slice(), &[5, 16]);
    tabs.expand(20, 40);
    assert_eq!(tabs.as_slice(), &[5, 16, 24, 32]);
    tabs.clear();
    assert_eq!(tabs.as_slice(), &[] as &[usize]);
}

#[test]
fn after_the_last_column_there_is_no_stop() {
    let tabs = Tabs::new(40);
    assert_eq!(tabs.after(usize::MAX, 1), None);
    assert_eq!(tabs.after(3, 1), Some(8));
    assert_eq!(tabs.after(8, 2), Some(24));
}

#[test]
fn unset_undoes_set() {
    let mut tabs = Tabs::new(40);
    let saved: Vec<usize> = tabs.as_slice().to_vec();
    tabs.set(13);
    assert_ne!(tabs.as_slice().to_vec(), saved);
    tabs.unset(13);
    assert_eq!(tabs.as_slice().to_vec(), saved);
}
