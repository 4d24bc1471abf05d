use mise::domain::id::Id;
use mise::domain::recipe::{
    Ingredient, IngredientBlock, InstructionBlock, Notes, StringifiedBlock, Title,
};
use mise::domain::tag::Name;
use mise::domain::{seconds_since_epoch, Session, SessionStatus, ValidationError};

fn constraint(error: ValidationError) -> String {
    match error {
        ValidationError::Constraint(message) => message,
        ValidationError::Format(message) => panic!("expected a constraint, got format: {message}"),
    }
}

#[test]
fn title_is_trimmed() {
    let title = Title::try_from("  Chicken Parm \n".to_owned()).unwrap();
    assert_eq!("Chicken Parm", title.as_str());
    assert_eq!("Chicken Parm", title.into_string());
}

#[test]
fn title_keeps_inner_white_space() {
    let title = Title::try_from("\tBean  Soup".to_owned()).unwrap();
    assert_eq!("Bean  Soup", title.as_str());
}

#[test]
fn blank_title_is_rejected_with_its_text() {
    let error = Title::try_from("  \t ".to_owned()).unwrap_err();
    assert_eq!(
        "Recipe title \"  \t \" must contain at least one character.",
        constraint(error)
    );
    let error = Title::try_from(String::new()).unwrap_err();
    assert_eq!(
        "Recipe title \"\" must contain at least one character.",
        error.to_string()
    );
}

#[test]
fn blank_notes_are_rejected() {
    let error = Notes::try_from(" ".to_owned()).unwrap_err();
    assert_eq!(
        "Recipe notes \" \" must contain at least one character, or else be null.",
        constraint(error)
    );
}

#[test]
fn blank_tag_name_is_rejected() {
    let error = Name::try_from("".to_owned()).unwrap_err();
    assert_eq!("Tag \"\" must contain at least one character.", constraint(error));
    assert_eq!("Soup", Name::try_from(" Soup ".to_owned()).unwrap().as_str());
}

#[test]
fn blank_ingredient_is_rejected() {
    let error = Ingredient::try_from("\n".to_owned()).unwrap_err();
    assert_eq!("\"\n\" must contain at least one character.", constraint(error));
}

#[test]
fn block_is_validated_item_by_item() {
    let block = IngredientBlock::try_from(StringifiedBlock {
        title: Some(" For the sauce ".to_owned()),
        items: vec![" Tomatoes".to_owned(), "Basil ".to_owned()],
    })
    .unwrap();
    let plain = StringifiedBlock::from_ingredient_block(block);
    assert_eq!(Some("For the sauce".to_owned()), plain.title);
    assert_eq!(vec!["Tomatoes".to_owned(), "Basil".to_owned()], plain.items);
}

#[test]
fn block_is_rejected_by_its_first_blank_text() {
    let error = InstructionBlock::try_from(StringifiedBlock {
        title: None,
        items: vec!["Stir".to_owned(), " ".to_owned(), "".to_owned()],
    })
    .unwrap_err();
    assert_eq!("\" \" must contain at least one character.", constraint(error));

    // a blank heading comes before a blank item
    let error = InstructionBlock::try_from(StringifiedBlock {
        title: Some("\t".to_owned()),
        items: vec!["".to_owned()],
    })
    .unwrap_err();
    assert_eq!("\"\t\" must contain at least one character.", constraint(error));
}

#[test]
fn empty_block_is_accepted() {
    let block = InstructionBlock::try_from(StringifiedBlock { title: None, items: vec![] }).unwrap();
    assert!(block.title.is_none());
    assert!(block.instructions.is_empty());
}

#[test]
fn id_reads_its_own_text() {
    let text = "01D39ZY06FGSCTVN4T2V9PKHFZ";
    let id = Id::try_from(text).unwrap();
    assert_eq!(text, id.to_string());
    assert_eq!(id, Id::try_from(&id.to_string()).unwrap());
    assert_eq!(id, Id::from_value(id.value()));
}

#[test]
fn id_text_is_canonical() {
    assert_eq!("00000000000000000000000000", Id::from_value(0).to_string());
    assert_eq!("0000000000000000000000000Z", Id::from_value(31).to_string());
    assert_eq!(
        Id::from_value(31),
        Id::try_from("0000000000000000000000000z").unwrap()
    );
    assert_eq!(
        "21850M2GA1850M2GA1850M2GA1",
        Id::from_value(0x41414141414141414141414141414141).to_string()
    );
}

#[test]
fn id_of_wrong_length_is_rejected() {
    match Id::try_from("a-random-id") {
        Err(ValidationError::Format(message)) => {
            assert_eq!("Could not parse ulid: a-random-id. invalid length", message)
        }
        other => panic!("expected a format error, got {other:?}"),
    }
}

#[test]
fn id_with_a_foreign_character_is_rejected() {
    match Id::try_from("2D9RW50[A499CMAGHM6DD42DTP") {
        Err(ValidationError::Format(message)) => assert_eq!(
            "Could not parse ulid: 2D9RW50[A499CMAGHM6DD42DTP. invalid character",
            message
        ),
        other => panic!("expected a format error, got {other:?}"),
    }
}

#[test]
fn fresh_ids_differ() {
    assert_ne!(Id::new(), Id::new());
    assert_eq!(26, Id::new().to_string().len());
}

#[test]
fn notes_render_to_sanitized_html() {
    let notes = Notes::try_from("Best served **hot**!<script>alert(1)</script>".to_owned()).unwrap();
    assert_eq!("<p>Best served <strong>hot</strong>!</p>\n", notes.into_html());
}

fn session(revalidate_at: i64, expires_at: i64) -> Session {
    Session {
        key: "key".to_owned(),
        user_id: "user".to_owned(),
        refresh_token: "token".to_owned(),
        revalidate_at,
        expires_at,
    }
}

#[test]
fn session_status_follows_the_clock() {
    let session = session(100, 200);
    assert_eq!(SessionStatus::Active, session.status_at(99));
    assert_eq!(SessionStatus::MustRevalidate, session.status_at(100));
    assert_eq!(SessionStatus::MustRevalidate, session.status_at(199));
    assert_eq!(SessionStatus::Expired, session.status_at(200));
    assert_eq!(SessionStatus::Expired, session.status_at(201));
}

#[test]
fn session_that_expires_before_it_revalidates_is_expired() {
    assert_eq!(SessionStatus::Expired, session(300, 200).status_at(250));
}

#[test]
fn session_status_reads_the_clock() {
    assert_eq!(SessionStatus::Expired, session(0, 1).status());
    assert_eq!(SessionStatus::MustRevalidate, session(1, i64::MAX).status());
    assert_eq!(SessionStatus::Active, session(i64::MAX - 1, i64::MAX).status());
}

#[test]
fn white_space_is_what_is_trimmed() {
    for space in [
        '\u{9}', '\u{a}', '\u{b}', '\u{c}', '\u{d}', ' ', '\u{85}', '\u{a0}', '\u{1680}',
        '\u{2000}', '\u{2005}', '\u{200a}', '\u{2028}', '\u{2029}', '\u{202f}', '\u{205f}',
        '\u{3000}',
    ] {
        let title = Title::try_from(format!("{space}soup{space}")).unwrap();
        assert_eq!("soup", title.as_str(), "{:x}", space as u32);
        assert!(Title::try_from(format!("{space}{space}")).is_err(), "{:x}", space as u32);
    }
    for other in ['\u{8}', '\u{e}', '\u{1f}', '\u{200b}', '\u{2060}', '\u{180e}', '\u{feff}', '_'] {
        let written = format!("{other}soup{other}");
        let title = Title::try_from(written.clone()).unwrap();
        assert_eq!(written, title.as_str(), "{:x}", other as u32);
    }
}

#[test]
fn reading_of_the_clock_is_a_time_in_seconds() {
    assert_eq!(0, seconds_since_epoch(Ok(0)));
    assert_eq!(1_700_000_000, seconds_since_epoch(Ok(1_700_000_000)));
    assert_eq!(-5, seconds_since_epoch(Err(5)));
    assert_eq!(i64::MAX, seconds_since_epoch(Ok(i64::MAX as u64)));
    assert_eq!(i64::MAX, seconds_since_epoch(Ok(u64::MAX)));
    assert_eq!(-i64::MAX, seconds_since_epoch(Err(i64::MAX as u64)));
    assert_eq!(i64::MIN, seconds_since_epoch(Err(i64::MAX as u64 + 1)));
    assert!(mise::domain::unix_now() > 1_600_000_000);
}

#[test]
fn trimming_is_what_the_standard_library_does() {
    for text in [
        "",
        " ",
        "\t\n\r ",
        "a",
        " a",
        "a ",
        "  a  b  ",
        "\u{3000}焼きプリン\u{2003}\u{a0}",
        "\u{200b} x \u{200b}",
        "\u{85}\u{1680}x\u{2028}\u{2029}\u{202f}\u{205f}",
        "\u{1c}x\u{1f}",
        "🍮 ",
    ] {
        assert_eq!(text.trim(), mise::text::trim(text), "{text:?}");
    }
    for code in 0..=0x3100u32 {
        if let Some(c) = char::from_u32(code) {
            assert_eq!(c.is_whitespace(), mise::text::is_white(c), "{code:x}");
        }
    }
}

#[test]
fn long_runs_of_white_space_are_trimmed() {
    let text = format!("{}soup{}", " ".repeat(2_000_000), "\t\u{3000}".repeat(1_000_000));
    assert_eq!("soup", mise::text::trim(&text));
    let blank = "\n".repeat(3_000_000);
    assert_eq!("", mise::text::trim(&blank));
    assert!(Title::try_from(blank).is_err());
}
