use recipe_server::recipe::{
    copy_lines, join_preparation, normalize_tag, normalize_tags, split_preparation, Recipe,
};

fn lines(items: &[&str]) -> Vec<String> {
    items.iter().map(|s| s.to_string()).collect()
}

fn pie() -> Recipe {
    Recipe {
        id: 1,
        name: "Apple pie".to_string(),
        ingredients: lines(&["3 apples", "200 g flour", "100 g butter"]),
        preparation: lines(&["Peel the apples.", "Make the dough.", "Bake for 40 minutes."]),
        source: "Grandmother".to_string(),
        tags: lines(&["apples", "dessert"]),
    }
}

#[test]
fn preparation_is_stored_with_a_bar_after_each_step() {
    assert_eq!(
        join_preparation(&pie().preparation),
        "Peel the apples.|Make the dough.|Bake for 40 minutes.|"
    );
    assert_eq!(join_preparation(&lines(&["one step"])), "one step|");
    assert_eq!(join_preparation(&lines(&[])), "");
    assert_eq!(join_preparation(&lines(&[""])), "|");
    assert_eq!(join_preparation(&lines(&["", ""])), "||");
}

#[test]
fn bars_and_backslashes_in_a_step_are_escaped() {
    assert_eq!(join_preparation(&lines(&["mix a|b"])), "mix a\\|b|");
    assert_eq!(join_preparation(&lines(&["a\\b", "|"])), "a\\\\b|\\||");
    assert_eq!(join_preparation(&lines(&["\\", "||"])), "\\\\|\\|\\||");
    assert_eq!(join_preparation(&lines(&["crème|brûlée"])), "crème\\|brûlée|");
}

#[test]
fn stored_preparation_is_read_step_by_step() {
    assert_eq!(split_preparation("a|b|c|"), lines(&["a", "b", "c"]));
    assert_eq!(split_preparation("one step|"), lines(&["one step"]));
    assert_eq!(split_preparation(""), lines(&[]));
    assert_eq!(split_preparation("|"), lines(&[""]));
    assert_eq!(split_preparation("||x|"), lines(&["", "", "x"]));
    assert_eq!(split_preparation("mix a\\|b|"), lines(&["mix a|b"]));
    assert_eq!(split_preparation("a\\\\b|\\||"), lines(&["a\\b", "|"]));
    assert_eq!(split_preparation("\\n|"), lines(&["n"]));
}

#[test]
fn a_text_without_a_last_bar_ends_in_one_more_step() {
    assert_eq!(split_preparation("a|b"), lines(&["a", "b"]));
    assert_eq!(split_preparation("one step"), lines(&["one step"]));
    assert_eq!(split_preparation("a|b\\"), lines(&["a", "b\\"]));
    assert_eq!(split_preparation("\\"), lines(&["\\"]));
    assert_eq!(split_preparation("a|\\|"), lines(&["a", "|"]));
}

#[test]
fn preparation_round_trips() {
    let cases = [
        lines(&[]),
        lines(&[""]),
        lines(&["", ""]),
        lines(&["Peel the apples.", "", "Bake 40 minutes."]),
        lines(&["mix a|b"]),
        lines(&["|", "||", "a|", "|a"]),
        lines(&["\\", "\\\\", "a\\", "\\|", "|\\"]),
        lines(&["", "\\", ""]),
        lines(&["crème|brûlée", "日本|語\\"]),
    ];
    for steps in cases {
        assert_eq!(split_preparation(&join_preparation(&steps)), steps);
    }
}

#[test]
fn preparation_round_trips_for_every_short_list() {
    let alphabet = ['a', '|', '\\'];
    let mut words: Vec<String> = vec![String::new()];
    for a in alphabet {
        words.push(a.to_string());
        for b in alphabet {
            words.push(format!("{}{}", a, b));
        }
    }
    for first in &words {
        assert_eq!(split_preparation(&join_preparation(&vec![first.to_string()])), vec![first.to_string()]);
        for second in &words {
            let steps = vec![first.to_string(), second.to_string()];
            assert_eq!(split_preparation(&join_preparation(&steps)), steps);
        }
    }
}

#[test]
fn tags_are_trimmed_and_lowercased() {
    assert_eq!(normalize_tag("  ApPles "), "apples");
    assert_eq!(normalize_tag("DESSERT"), "dessert");
    assert_eq!(normalize_tag("soup"), "soup");
    assert_eq!(normalize_tag("\tÉclair\n"), "éclair");
    assert_eq!(normalize_tag("   "), "");
    assert_eq!(normalize_tag("Ice Cream"), "ice cream");
}

#[test]
fn every_tag_of_a_list_is_normalized() {
    assert_eq!(normalize_tags(&lines(&[" A", "b ", "C d"])), lines(&["a", "b", "c d"]));
    assert_eq!(normalize_tags(&lines(&[])), lines(&[]));
}

#[test]
fn copies_are_equal() {
    assert_eq!(copy_lines(&lines(&["x", "", "y"])), lines(&["x", "", "y"]));
    assert_eq!(pie().duplicate(), pie());
}
