use wspr_tx::image::{
    image_divisor_word, image_step, parse_image_file, ImageAction, ImageCursor, IMAGE_DIV_I,
};

fn lines(text: &[&str]) -> Vec<String> {
    text.iter().map(|s| s.to_string()).collect()
}

fn play(positions: &Vec<i32>, waits: &Vec<i32>, data_len: isize, repeats: u32) -> Vec<ImageAction> {
    let mut cursor = ImageCursor::RowStart { pos: 0 };
    let mut actions = Vec::new();
    for _ in 0..1000 {
        let (next, action) = image_step(cursor, positions, waits, data_len, repeats);
        cursor = next;
        match action {
            ImageAction::Idle => {},
            ImageAction::Done | ImageAction::Malformed => {
                actions.push(action);
                return actions;
            },
            _ => actions.push(action),
        }
    }
    actions
}

#[test]
fn image_file_is_split_into_fractions_and_waits() {
    let f = parse_image_file(&lines(&["6", "2", "100", "5", "200", "7", "-1", "3"])).unwrap();
    assert_eq!(f.data_len, 6);
    assert_eq!(f.wait_per_row, 2);
    assert_eq!(f.positions, vec![100, 200, -1]);
    assert_eq!(f.waits, vec![5, 7, 3]);
}

#[test]
fn image_file_with_odd_entry_count() {
    let f = parse_image_file(&lines(&["1", "0", "+4", "-9", "12"])).unwrap();
    assert_eq!(f.positions, vec![4, 12]);
    assert_eq!(f.waits, vec![-9]);
}

#[test]
fn image_file_with_header_only() {
    let f = parse_image_file(&lines(&["0", "-3"])).unwrap();
    assert_eq!(f.data_len, 0);
    assert_eq!(f.wait_per_row, -3);
    assert!(f.positions.is_empty());
    assert!(f.waits.is_empty());
}

#[test]
fn image_file_missing_header_is_rejected() {
    assert!(parse_image_file(&lines(&[])).is_none());
    assert!(parse_image_file(&lines(&["5"])).is_none());
}

#[test]
fn image_file_with_bad_numbers_is_rejected() {
    assert!(parse_image_file(&lines(&["x", "1"])).is_none());
    assert!(parse_image_file(&lines(&["1", "1", " 3"])).is_none());
    assert!(parse_image_file(&lines(&["1", "1", "3", "-"])).is_none());
    assert!(parse_image_file(&lines(&["1", "1", "2147483648"])).is_none());
    assert!(parse_image_file(&lines(&["1", "1", "-2147483648"])).is_some());
    assert!(parse_image_file(&lines(&["1", "1", "1_0"])).is_none());
}

#[test]
fn image_rows_are_played_repeatedly() {
    let positions = vec![100, 200, -1, 300, -1];
    let waits = vec![5, 6, 7, 8, 9];
    let actions = play(&positions, &waits, 5, 2);
    assert_eq!(
        actions,
        vec![
            ImageAction::Tone { div_f: 100, wait: 5 },
            ImageAction::Tone { div_f: 200, wait: 6 },
            ImageAction::Gap { wait: 7 },
            ImageAction::Tone { div_f: 100, wait: 5 },
            ImageAction::Tone { div_f: 200, wait: 6 },
            ImageAction::Gap { wait: 7 },
            ImageAction::Tone { div_f: 300, wait: 8 },
            ImageAction::Gap { wait: 9 },
            ImageAction::Tone { div_f: 300, wait: 8 },
            ImageAction::Gap { wait: 9 },
            ImageAction::Done,
        ]
    );
}

#[test]
fn image_without_repeats_plays_nothing() {
    let actions = play(&vec![1, -1], &vec![1, 1], 2, 0);
    assert_eq!(actions, vec![ImageAction::Done]);
}

#[test]
fn image_row_running_off_the_data_is_malformed() {
    let actions = play(&vec![1, 2], &vec![1, 1], 2, 1);
    assert_eq!(
        actions,
        vec![
            ImageAction::Tone { div_f: 1, wait: 1 },
            ImageAction::Tone { div_f: 2, wait: 1 },
            ImageAction::Malformed,
        ]
    );
}

#[test]
fn image_step_after_finish_stays_done() {
    let (c, a) = image_step(ImageCursor::Finished, &vec![], &vec![], 0, 1);
    assert_eq!(c, ImageCursor::Finished);
    assert_eq!(a, ImageAction::Done);
}

#[test]
fn image_divisor_words() {
    assert_eq!(IMAGE_DIV_I, 35);
    assert_eq!(image_divisor_word(ImageAction::Tone { div_f: 100, wait: 3 }), Some(0x5A02_3064));
    assert_eq!(image_divisor_word(ImageAction::Gap { wait: 3 }), Some(0x5A02_4000));
    assert_eq!(image_divisor_word(ImageAction::Idle), None);
    assert_eq!(image_divisor_word(ImageAction::Done), None);
    assert_eq!(image_divisor_word(ImageAction::Malformed), None);
}
