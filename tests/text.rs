use activity_tracker::notifications::{Message, Messages};
use activity_tracker::offset_picker::{picker_step, PickerKey, PickerStep};
use activity_tracker::text::{activities_csv, offset_string, push_decimal};
use activity_tracker::statistics::{duration_label, sort_by_time};
use activity_tracker::timeline::activity_hue;

#[test]
fn offset_string_words() {
    assert_eq!(offset_string(0), "now");
    assert_eq!(offset_string(5400), "in 1h and 30m");
    assert_eq!(offset_string(-1800), "30m ago");
    assert_eq!(offset_string(7200), "in 2h");
    assert_eq!(offset_string(-36000 - 600 - 59), "10h and 10m ago");
    assert_eq!(offset_string(30), "in ");
    assert_eq!(offset_string(-30), " ago");
}

#[test]
fn offset_string_extremes() {
    assert_eq!(offset_string(i64::MIN), "2562047788015215h and 30m ago");
    assert_eq!(offset_string(i64::MAX), "in 2562047788015215h and 30m");
}

#[test]
fn decimal_digits() {
    let mut s = String::from("n=");
    push_decimal(&mut s, 0);
    push_decimal(&mut s, 1907);
    push_decimal(&mut s, u64::MAX);
    assert_eq!(s, "n=0190718446744073709551615");
}

#[test]
fn csv_report_text() {
    let rows = vec![("Coding".to_string(), 6000), ("Tea".to_string(), 59), ("Long".to_string(), 90061)];
    assert_eq!(activities_csv(&rows), "Activity,Time\nCoding,1h40m\nTea,0h0m\nLong,25h1m\n");
    assert_eq!(activities_csv(&vec![]), "Activity,Time\n");
}

#[test]
fn hue_of_names() {
    assert_eq!(activity_hue(""), 0);
    assert_eq!(activity_hue("a"), 136);
    assert_eq!(activity_hue("ab"), 274);
    assert_eq!(activity_hue("abc"), (136 + 138 + 139) % 360);
    assert_eq!(activity_hue("ab"), activity_hue("ab"));
}

#[test]
fn picker_keys() {
    assert_eq!(picker_step(0, PickerKey::ArrowLeft, false), PickerStep::Move(-1800));
    assert_eq!(picker_step(0, PickerKey::ArrowRight, true), PickerStep::Move(600));
    assert_eq!(picker_step(600, PickerKey::Enter, false), PickerStep::Confirm(600));
    assert_eq!(picker_step(600, PickerKey::Escape, true), PickerStep::Cancel);
    assert_eq!(picker_step(600, PickerKey::Other, true), PickerStep::Stay);
    assert_eq!(picker_step(i64::MAX, PickerKey::ArrowRight, true), PickerStep::Stay);
    assert_eq!(picker_step(i64::MIN, PickerKey::ArrowLeft, false), PickerStep::Stay);
}

#[test]
fn old_messages_are_dropped() {
    let mut m = Messages::new();
    m.success("saved".to_string(), 1000);
    m.error("failed".to_string(), 3000);
    m.success("late".to_string(), 9000);
    m.remove_old_messages(6000);
    let kept: Vec<String> = m
        .get_messages()
        .iter()
        .map(|(msg, _)| match msg {
            Message::Success(s) => format!("ok:{}", s),
            Message::Error(s) => format!("err:{}", s),
        })
        .collect();
    assert_eq!(kept, vec!["err:failed".to_string(), "ok:late".to_string()]);
    m.remove_old_messages(8000);
    assert_eq!(m.get_messages().len(), 1);
    assert_eq!(m.get_messages()[0].1, 9000);
}

#[test]
fn totals_sorted_longest_first() {
    let v = vec![("a".to_string(), 5), ("b".to_string(), 9), ("c".to_string(), 5), ("d".to_string(), 1)];
    let r = sort_by_time(v);
    let expected = vec![("b".to_string(), 9), ("a".to_string(), 5), ("c".to_string(), 5), ("d".to_string(), 1)];
    assert_eq!(r, expected);
    assert!(sort_by_time(vec![]).is_empty());
}

#[test]
fn duration_labels() {
    assert_eq!(duration_label(3900), " 1h 5");
    assert_eq!(duration_label(36720), "10h12");
    assert_eq!(duration_label(0), " 0h 0");
    assert_eq!(duration_label(59), " 0h 0");
}
