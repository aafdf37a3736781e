use noline::history::{
    get_history_entries, CircularRange, CircularSlice, History, HistoryNavigator, NoHistory,
    SliceHistory, UnboundedHistory,
};

fn slice_to_string(slice: &CircularSlice) -> String {
    let (a, b) = slice.get_slices();
    let mut bytes = a.to_vec();
    bytes.extend_from_slice(b);
    String::from_utf8(bytes).unwrap()
}

fn entries(history: &SliceHistory) -> Vec<String> {
    history.get_entries().iter().map(slice_to_string).collect()
}

#[test]
fn circular_range() {
    assert_eq!(CircularRange::new(0, 3, 10, 10).get_ranges(), (0..3, 0..0));
    assert_eq!(CircularRange::new(0, 0, 10, 10).get_ranges(), (0..10, 0..0));
    assert_eq!(CircularRange::new(0, 0, 0, 10).get_ranges(), (0..0, 0..0));
    assert_eq!(CircularRange::new(7, 3, 10, 10).get_ranges(), (7..10, 0..3));
    assert_eq!(CircularRange::new(0, 0, 10, 10).get_ranges(), (0..10, 0..0));
    assert_eq!(
        CircularRange::new(0, 10, 10, 10).get_ranges(),
        (0..10, 0..0)
    );
    assert_eq!(CircularRange::new(9, 9, 10, 10).get_ranges(), (9..10, 0..9));
    assert_eq!(
        CircularRange::new(10, 10, 10, 10).get_ranges(),
        (10..10, 0..10)
    );

    assert_eq!(CircularRange::new(0, 10, 10, 10).into_indices().len(), 10);
    assert_eq!(CircularRange::new(10, 10, 10, 10).into_indices().len(), 10);
    assert_eq!(CircularRange::new(4, 4, 10, 10).into_indices().len(), 10);
}

#[test]
fn circular_slice() {
    assert_eq!(
        CircularSlice::new("abcdef".as_bytes(), 0, 3, 6).get_slices(),
        ("abc".as_bytes(), "".as_bytes())
    );

    assert_eq!(
        CircularSlice::new("abcdef".as_bytes(), 3, 0, 6).get_slices(),
        ("def".as_bytes(), "".as_bytes())
    );

    assert_eq!(
        CircularSlice::new("abcdef".as_bytes(), 3, 3, 6).get_slices(),
        ("def".as_bytes(), "abc".as_bytes())
    );

    assert_eq!(
        CircularSlice::new("abcdef".as_bytes(), 0, 6, 6).get_slices(),
        ("abcdef".as_bytes(), "".as_bytes())
    );

    assert_eq!(
        CircularSlice::new("abcdef".as_bytes(), 0, 0, 6).get_slices(),
        ("abcdef".as_bytes(), "".as_bytes())
    );

    assert_eq!(
        CircularSlice::new("abcdef".as_bytes(), 0, 0, 0).get_slices(),
        ("".as_bytes(), "".as_bytes())
    );

    assert_eq!(
        CircularSlice::new("abcdef".as_bytes(), 6, 6, 6).get_slices(),
        ("".as_bytes(), "abcdef".as_bytes())
    );
}

#[test]
fn static_history() {
    let mut buffer = [0; 10];
    let mut history: SliceHistory = SliceHistory::new(&mut buffer);

    assert_eq!(history.get_available_range().get_ranges(), (0..10, 0..0));

    assert_eq!(entries(&history), Vec::<String>::new());

    history.add_entry("abc").unwrap();

    assert_eq!(entries(&history), vec!["abc"]);

    history.add_entry("def").unwrap();

    assert_eq!(entries(&history), vec!["abc", "def"]);

    history.add_entry("ghi").unwrap();

    assert_eq!(entries(&history), vec!["def", "ghi"]);

    history.add_entry("j").unwrap();

    assert_eq!(entries(&history), vec!["def", "ghi", "j"]);

    history.add_entry("012345678").unwrap();

    assert_eq!(entries(&history), vec!["012345678"]);

    assert!(history.add_entry("0123456789").is_err());

    history.add_entry("abc").unwrap();

    assert_eq!(entries(&history), vec!["abc"]);

    history.add_entry("defgh").unwrap();

    assert_eq!(entries(&history), vec!["abc", "defgh"]);
}

#[test]
fn navigator() {
    let mut history = UnboundedHistory::new();
    let mut navigator = HistoryNavigator::new(&mut history);

    assert!(navigator.move_up().is_err());
    assert!(navigator.move_down().is_err());

    navigator.history.add_entry("line 1").unwrap();
    navigator.reset();

    assert!(navigator.move_up().is_ok());
    assert!(navigator.move_up().is_err());

    assert!(navigator.move_down().is_err());
}

#[test]
fn navigator_walks_entries() {
    let mut history = UnboundedHistory::new();
    history.load_entries(&["first", "second", "third"]);
    let mut navigator = HistoryNavigator::new(&mut history);

    assert!(!navigator.is_active());
    assert_eq!(slice_to_string(&navigator.move_up().unwrap()), "third");
    assert!(navigator.is_active());
    assert_eq!(slice_to_string(&navigator.move_up().unwrap()), "second");
    assert_eq!(slice_to_string(&navigator.move_down().unwrap()), "third");
    assert!(navigator.move_down().is_err());
}

#[test]
fn added_line_is_newest() {
    let mut buffer = [0; 8];
    let mut history = SliceHistory::new(&mut buffer);

    history.add_entry("ab").unwrap();
    history.add_entry("cd").unwrap();
    assert_eq!(entries(&history).last().unwrap(), "cd");
    history.add_entry("efg").unwrap();
    assert_eq!(entries(&history).last().unwrap(), "efg");
    assert_eq!(history.number_of_entries(), entries(&history).len());
    assert_eq!(
        slice_to_string(&history.get_entry(0).unwrap()),
        entries(&history)[0]
    );
    assert!(history.get_entry(10).is_none());
}

#[test]
fn unbounded_and_no_history() {
    let mut history = UnboundedHistory::new();
    assert_eq!(history.load_entries(&["a", "b"]), 2);
    assert_eq!(history.number_of_entries(), 2);
    let all: Vec<String> = get_history_entries(&history)
        .iter()
        .map(slice_to_string)
        .collect();
    assert_eq!(all, vec!["a", "b"]);

    let mut none = NoHistory::new();
    assert!(none.add_entry("x").is_err());
    assert_eq!(none.number_of_entries(), 0);
    assert!(none.get_entry(0).is_none());
}

#[test]
fn load_entries_stops_at_refused_line() {
    let mut buffer = [0u8; 8];
    let mut history = SliceHistory::new(&mut buffer);
    assert_eq!(history.load_entries(&["ab", "too long line", "cd"]), 1);
    assert_eq!(entries(&history), vec!["ab"]);

    let mut none = NoHistory::new();
    assert_eq!(none.load_entries(&["a", "b"]), 0);
    assert_eq!(none.number_of_entries(), 0);
}

#[test]
fn navigator_add_entry_reports_refusal() {
    let mut buffer = [0u8; 4];
    let mut history = SliceHistory::new(&mut buffer);
    let mut nav = HistoryNavigator::new(&mut history);
    assert_eq!(nav.add_entry("abcd"), Err("abcd"));
    assert_eq!(nav.add_entry("abc"), Ok(()));
}

#[test]
fn full_line_in_small_buffer_is_only_entry() {
    let mut buffer = [0u8; 4];
    let mut history = SliceHistory::new(&mut buffer);
    assert_eq!(history.add_entry("abc"), Ok(()));
    assert_eq!(history.number_of_entries(), 1);
    assert_eq!(entries(&history), vec!["abc"]);
}
