use tracing_fastly::providers::datadog::tags::{check_bare_tag, check_key_value_tag};
use tracing_fastly::providers::datadog::tags::{TagError, Tags};

#[test]
fn tags_tags_are_encoded_as_a_comma_separated_string() {
    let mut tags = Tags::new().with("env", "production").unwrap();
    tags.push("version", "1.2.3").unwrap();
    tags.push_bare("canary").unwrap();

    assert_eq!(tags.as_str(), "env:production,version:1.2.3,canary");
    assert_eq!(
        serde_json::to_value(tags.as_str()).unwrap(),
        serde_json::Value::String("env:production,version:1.2.3,canary".to_owned())
    );
}

#[test]
fn rejects_invalid_tags_without_mutating_the_collection() {
    let mut tags = Tags::new().with("env", "production").unwrap();

    assert_eq!(
        tags.push("release", "stable,admin:true"),
        Err(TagError::InvalidCharacter {
            part: "value",
            character: ',',
        })
    );
    assert_eq!(
        tags.push("invalid:key", "value"),
        Err(TagError::InvalidCharacter {
            part: "key",
            character: ':',
        })
    );
    assert_eq!(
        tags.push("2invalid", "value"),
        Err(TagError::MustStartWithLetter)
    );
    assert_eq!(tags.as_str(), "env:production");
}

#[test]
fn rejects_tags_longer_than_two_hundred_characters() {
    let value = "x".repeat(197);
    assert_eq!(
        Tags::new().with("env", &value),
        Err(TagError::TooLong { characters: 201 })
    );
}

#[test]
fn accepts_a_tag_of_exactly_two_hundred_characters() {
    let value = "x".repeat(196);
    let tags = Tags::new().with("env", &value).unwrap();
    assert_eq!(tags.as_str().chars().count(), 200);
}

#[test]
fn rejects_an_empty_key_and_an_empty_bare_tag() {
    let mut tags = Tags::new();
    assert_eq!(tags.push("", "value"), Err(TagError::Empty));
    assert_eq!(tags.push_bare(""), Err(TagError::Empty));
    assert_eq!(tags.as_str(), "");
}

#[test]
fn bare_tags_may_hold_colons_but_not_commas() {
    let tags = Tags::new().with_bare("team:core").unwrap();
    assert_eq!(tags.as_str(), "team:core");
    assert_eq!(
        tags.clone().with_bare("a,b"),
        Err(TagError::InvalidCharacter {
            part: "value",
            character: ',',
        })
    );
    assert_eq!(
        tags.with_bare("-dash"),
        Err(TagError::MustStartWithLetter)
    );
}

#[test]
fn the_first_invalid_character_is_reported() {
    let mut tags = Tags::new();
    assert_eq!(
        tags.push("env", "a b,c"),
        Err(TagError::InvalidCharacter {
            part: "value",
            character: ' ',
        })
    );
}

#[test]
fn key_checks_come_before_value_and_length_checks() {
    let long = "x".repeat(300);
    assert_eq!(
        Tags::new().with("k ey", &long),
        Err(TagError::InvalidCharacter {
            part: "key",
            character: ' ',
        })
    );
    assert_eq!(
        Tags::new().with("key", "bad value"),
        Err(TagError::InvalidCharacter {
            part: "value",
            character: ' ',
        })
    );
}

#[test]
fn unicode_letters_and_allowed_punctuation_are_accepted() {
    let tags = Tags::new()
        .with("région", "é_1-2.3/4@5:6")
        .unwrap()
        .with_bare("ok")
        .unwrap();
    assert_eq!(tags.as_str(), "région:é_1-2.3/4@5:6,ok");
}

#[test]
fn default_tags_are_empty() {
    assert_eq!(Tags::default().as_str(), "");
    assert_eq!(Tags::default(), Tags::new());
}

#[test]
fn checks_on_given_character_answers() {
    assert_eq!(
        check_key_value_tag("env", "prod", true, &[true; 3], &[true; 4]),
        Ok(())
    );
    assert_eq!(
        check_key_value_tag("env", "pr d", true, &[true; 3], &[true, true, false, true]),
        Err(TagError::InvalidCharacter {
            part: "value",
            character: ' ',
        })
    );
    assert_eq!(
        check_key_value_tag("env", "x", false, &[true; 3], &[true]),
        Err(TagError::MustStartWithLetter)
    );
    assert_eq!(check_bare_tag("", true, &[]), Err(TagError::Empty));
    assert_eq!(check_bare_tag("a:b", true, &[true, false, true]), Ok(()));
    assert_eq!(
        check_bare_tag("a#b", true, &[true, false, true]),
        Err(TagError::InvalidCharacter {
            part: "value",
            character: '#',
        })
    );
}

#[test]
fn tag_text_splits_at_commas_into_the_added_tags() {
    let mut tags = Tags::new();
    tags.push("env", "production").unwrap();
    let _ = tags.push("bad", "a,b");
    tags.push_bare("canary:yes").unwrap();
    let _ = tags.push_bare(",");
    let segments: Vec<&str> = tags.as_str().split(',').collect();
    assert_eq!(segments, ["env:production", "canary:yes"]);
    assert!(segments
        .iter()
        .all(|s| !s.is_empty() && s.chars().count() <= 200 && s.chars().next().unwrap().is_alphabetic()));
}

#[test]
fn a_key_value_tag_is_accepted_as_the_bare_tag_of_its_text() {
    assert!(Tags::new().with("env", "a:b").is_ok());
    assert!(Tags::new().with_bare("env:a:b").is_ok());
    assert!(Tags::new().with("en:v", "b").is_err());
    assert!(Tags::new().with_bare("en:v:b").is_ok());
    assert!(Tags::new().with("", "b").is_err());
    assert!(Tags::new().with_bare(":b").is_err());
}
