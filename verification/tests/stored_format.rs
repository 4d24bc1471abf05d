use base64::Engine;
use mise::datastore::envelope::{decode, encode};
use mise::datastore::{RecipeDocument, VersionedRecipeDocument};
use mise::domain::id::Id;
use mise::domain::page::cursor;
use mise::domain::recipe::StringifiedBlock;
use mise::http::recipe::encode_cursor;
use serde::ser::{SerializeStruct, SerializeStructVariant};
use serde::{Serialize, Serializer};

/// A block as a serializer is told of it: a struct of a title and items.
struct Block<'a>(&'a StringifiedBlock);

impl Serialize for Block<'_> {
    fn serialize<S: Serializer>(&self, serializer: S) -> Result<S::Ok, S::Error> {
        let mut fields = serializer.serialize_struct("StringifiedBlock", 2)?;
        fields.serialize_field("title", &self.0.title)?;
        fields.serialize_field("items", &self.0.items)?;
        fields.end()
    }
}

/// A document as a serializer is told of it: the first variant of the
/// versions, with the fields of the document, the identifiers as `ulid`
/// serializes them.
struct Stored<'a>(&'a RecipeDocument);

impl Serialize for Stored<'_> {
    fn serialize<S: Serializer>(&self, serializer: S) -> Result<S::Ok, S::Error> {
        let document = self.0;
        let ingredients: Vec<Block> = document.ingredients.iter().map(Block).collect();
        let instructions: Vec<Block> = document.instructions.iter().map(Block).collect();
        let tag_ids: Vec<ulid::Ulid> =
            document.tag_ids.iter().map(|id| ulid::Ulid(id.value())).collect();
        let image_id: Option<ulid::Ulid> =
            document.image_id.as_ref().map(|id| ulid::Ulid(id.value()));
        let mut fields =
            serializer.serialize_struct_variant("VersionedRecipeDocument", 0, "V1", 6)?;
        fields.serialize_field("title", &document.title)?;
        fields.serialize_field("ingredients", &ingredients)?;
        fields.serialize_field("instructions", &instructions)?;
        fields.serialize_field("notes", &document.notes)?;
        fields.serialize_field("tag_ids", &tag_ids)?;
        fields.serialize_field("image_id", &image_id)?;
        fields.end()
    }
}

/// A cursor as a serializer is told of it.
struct Position<'a>(&'a cursor::Recipe);

impl Serialize for Position<'_> {
    fn serialize<S: Serializer>(&self, serializer: S) -> Result<S::Ok, S::Error> {
        let mut fields = serializer.serialize_struct("Recipe", 2)?;
        fields.serialize_field("id", &self.0.id)?;
        fields.serialize_field("name", &self.0.name)?;
        fields.end()
    }
}

fn block(title: Option<&str>, items: &[&str]) -> StringifiedBlock {
    StringifiedBlock {
        title: title.map(|t| t.to_owned()),
        items: items.iter().map(|i| (*i).to_owned()).collect(),
    }
}

fn documents() -> Vec<RecipeDocument> {
    vec![
        RecipeDocument {
            title: String::new(),
            ingredients: vec![],
            instructions: vec![],
            notes: None,
            tag_ids: vec![],
            image_id: None,
        },
        RecipeDocument {
            title: "Chicken Parm".into(),
            ingredients: vec![block(None, &["chicken", "parmesan"])],
            instructions: vec![block(None, &["cook"])],
            notes: Some("Don't burn it!".into()),
            tag_ids: vec![Id::from_value(1), Id::from_value(u128::MAX)],
            image_id: Some(Id::from_value(0x0123_4567_89ab_cdef_0123_4567_89ab_cdef)),
        },
        RecipeDocument {
            title: "Crème brûlée — 焼きプリン 🍮".into(),
            ingredients: vec![
                block(Some("Custard"), &["cream", "", "sugar"]),
                block(Some(""), &[]),
                block(None, &[]),
            ],
            instructions: vec![block(Some(&"long ".repeat(40)), &["x".repeat(20_000).as_str()])],
            notes: Some(String::new()),
            tag_ids: (0..200u128).map(|v| Id::from_value(v << 64)).collect(),
            image_id: Some(Id::from_value(0)),
        },
    ]
}

#[test]
fn stored_bytes_are_those_that_postcard_writes() {
    for document in documents() {
        let written = postcard::to_allocvec(&Stored(&document)).unwrap();
        let stored = encode(&VersionedRecipeDocument::from(document.duplicate()));
        assert_eq!(written, stored, "{}", document.title);
    }
}

#[test]
fn what_postcard_writes_is_read_as_the_document() {
    for document in documents() {
        let written = postcard::to_allocvec(&Stored(&document)).unwrap();
        let read = RecipeDocument::from(decode(&written).expect("the bytes hold a document"));
        assert_eq!(document.title, read.title);
        assert_eq!(document.notes, read.notes);
        assert_eq!(document.tag_ids, read.tag_ids);
        assert_eq!(document.image_id, read.image_id);
        let plain = |blocks: &Vec<StringifiedBlock>| -> Vec<(Option<String>, Vec<String>)> {
            blocks.iter().map(|b| (b.title.clone(), b.items.clone())).collect()
        };
        assert_eq!(plain(&document.ingredients), plain(&read.ingredients));
        assert_eq!(plain(&document.instructions), plain(&read.instructions));
    }
}

#[test]
fn text_of_a_cursor_is_that_of_the_bytes_that_postcard_writes() {
    for (id, name) in [("", ""), ("01ARZ3NDEKTSV4RRFFQ69G5FAV", "Chicken Parm"), ("x", "焼きプリン")] {
        let position = cursor::Recipe { id: id.to_owned(), name: name.to_owned() };
        let written = postcard::to_allocvec(&Position(&position)).unwrap();
        let text = base64::engine::general_purpose::URL_SAFE.encode(written);
        assert_eq!(text, encode_cursor(&position).unwrap());
    }
}
