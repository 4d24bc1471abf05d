//! The stored form of a recipe document: the version of the format, then the
//! fields of the document in the primitives of the wire format.

use vstd::prelude::*;
use vstd::string::*;
use vstd::utf8::*;
use crate::datastore::wire::{
    counted, has_at, items, lemma_has_at_split, lemma_items_push, lemma_parse_counted,
    lemma_parse_items_step, lemma_parse_len, lemma_parse_optional, lemma_parse_text,
    lemma_parse_varint_advances, lemma_varint_not_empty, max_len, optional, parse_counted,
    parse_items, parse_len, parse_optional, parse_text, prepend, read_len, read_text,
    reads_back, text, varint, write_text, write_varint, Parsed, VARINT_LIMIT,
};
use crate::datastore::{DocumentText, VersionedRecipeDocument};
use crate::domain::id::{ulid_text, ulid_value, Id};
use crate::domain::recipe::{BlockText, StringifiedBlock};

verus! {

/// The version under which documents are written.
pub const VERSION_1: u8 = 0;

/// Writes a text.
pub open spec fn text_writer() -> spec_fn(Seq<char>) -> Seq<u8> {
    |t: Seq<char>| text(t)
}

/// Reads a text.
pub open spec fn text_reader() -> spec_fn(Seq<u8>, int) -> Parsed<Seq<char>> {
    |s: Seq<u8>, pos: int| parse_text(s, pos)
}

/// Reads an identifier at `pos`: a text, which is the text of an identifier.
pub open spec fn parse_id(s: Seq<u8>, pos: int) -> Parsed<u128> {
    match parse_text(s, pos) {
        Some((written, next)) => match ulid_value(written) {
            Some(value) => Some((value, next)),
            None => None,
        },
        None => None,
    }
}

/// Writes an identifier: its canonical text.
pub open spec fn id_writer() -> spec_fn(u128) -> Seq<u8> {
    |id: u128| text(ulid_text(id))
}

/// The identifier can be stored: its canonical text fits and reads back as
/// the identifier. Every identifier that the library has written as a text is
/// so.
pub open spec fn id_fits(id: u128) -> bool {
    text_fits(ulid_text(id)) && ulid_value(ulid_text(id)) == Some(id)
}

/// Reads an identifier.
pub open spec fn id_reader() -> spec_fn(Seq<u8>, int) -> Parsed<u128> {
    |s: Seq<u8>, pos: int| parse_id(s, pos)
}

/// A block: its optional heading, then its items.
pub open spec fn block(b: BlockText) -> Seq<u8> {
    optional(b.title, text_writer()) + counted(b.items, text_writer())
}

/// Reads a block at `pos`.
pub open spec fn parse_block(s: Seq<u8>, pos: int) -> Parsed<BlockText> {
    match parse_optional(s, pos, text_reader()) {
        Some((title, after_title)) => match parse_counted(s, after_title, text_reader()) {
            Some((items, next)) => Some((BlockText { title, items }, next)),
            None => None,
        },
        None => None,
    }
}

/// Writes a block.
pub open spec fn block_writer() -> spec_fn(BlockText) -> Seq<u8> {
    |b: BlockText| block(b)
}

/// Reads a block.
pub open spec fn block_reader() -> spec_fn(Seq<u8>, int) -> Parsed<BlockText> {
    |s: Seq<u8>, pos: int| parse_block(s, pos)
}

/// The fields of a document, one after the other.
pub open spec fn fields(d: DocumentText) -> Seq<u8> {
    text(d.title) + counted(d.ingredients, block_writer()) + counted(
        d.instructions,
        block_writer(),
    ) + optional(d.notes, text_writer()) + counted(d.tag_ids, id_writer()) + optional(
        d.image_id,
        id_writer(),
    )
}

/// The stored bytes of a document: the version, then the fields.
pub open spec fn document(d: DocumentText) -> Seq<u8> {
    varint(VERSION_1 as nat) + fields(d)
}

/// Reads the fields of a document from `pos` on.
pub open spec fn parse_fields(s: Seq<u8>, pos: int) -> Parsed<DocumentText> {
    match parse_text(s, pos) {
        Some((title, after_title)) => match parse_counted(s, after_title, block_reader()) {
            Some((ingredients, after_ingredients)) => match parse_counted(
                s,
                after_ingredients,
                block_reader(),
            ) {
                Some((instructions, after_instructions)) => match parse_optional(
                    s,
                    after_instructions,
                    text_reader(),
                ) {
                    Some((notes, after_notes)) => match parse_counted(s, after_notes, id_reader()) {
                        Some((tag_ids, after_tags)) => match parse_optional(
                            s,
                            after_tags,
                            id_reader(),
                        ) {
                            Some((image_id, end)) => Some(
                                (
                                    DocumentText {
                                        title,
                                        ingredients,
                                        instructions,
                                        notes,
                                        tag_ids,
                                        image_id,
                                    },
                                    end,
                                ),
                            ),
                            None => None,
                        },
                        None => None,
                    },
                    None => None,
                },
                None => None,
            },
            None => None,
        },
        None => None,
    }
}

/// The document that stored bytes hold: the bytes are the version of the
/// format and then the fields of a document, and nothing else.
pub open spec fn parse_document(s: Seq<u8>) -> Option<DocumentText> {
    match parse_len(s, 0) {
        Some((version, start)) => if version == VERSION_1 as nat {
            match parse_fields(s, start) {
                Some((d, end)) => if end == s.len() {
                    Some(d)
                } else {
                    None
                },
                None => None,
            }
        } else {
            None
        },
        None => None,
    }
}

/// The UTF-8 form of the text is not longer than the format allows.
pub open spec fn text_fits(t: Seq<char>) -> bool {
    encode_utf8(t).len() <= max_len()
}

/// The block can be stored.
pub open spec fn block_fits(b: BlockText) -> bool {
    &&& b.title matches Some(title) ==> text_fits(title)
    &&& b.items.len() <= max_len()
    &&& forall|i: int| 0 <= i < b.items.len() ==> text_fits(#[trigger] b.items[i])
}

/// The document can be stored: no text and no sequence of it is longer than
/// the format allows, and its identifiers can be stored.
pub open spec fn document_fits(d: DocumentText) -> bool {
    &&& text_fits(d.title)
    &&& d.ingredients.len() <= max_len()
    &&& forall|i: int| 0 <= i < d.ingredients.len() ==> block_fits(#[trigger] d.ingredients[i])
    &&& d.instructions.len() <= max_len()
    &&& forall|i: int| 0 <= i < d.instructions.len() ==> block_fits(#[trigger] d.instructions[i])
    &&& d.notes matches Some(notes) ==> text_fits(notes)
    &&& d.tag_ids.len() <= max_len()
    &&& forall|i: int| 0 <= i < d.tag_ids.len() ==> id_fits(#[trigger] d.tag_ids[i])
    &&& d.image_id matches Some(id) ==> id_fits(id)
}

/// A text that fits is read back.
pub proof fn lemma_text_reads_back(t: Seq<char>)
    requires
        text_fits(t),
    ensures
        reads_back(t, text_writer(), text_reader()),
{
    reveal(reads_back);
    assert forall|s: Seq<u8>, pos: int| #[trigger] has_at(s, pos, text_writer()(t)) implies (
    text_reader())(s, pos) == Some((t, pos + text_writer()(t).len())) by {
        lemma_parse_text(s, pos, t);
    }
}

/// An identifier is read back.
pub proof fn lemma_id_reads_back(id: u128)
    requires
        id_fits(id),
    ensures
        reads_back(id, id_writer(), id_reader()),
{
    reveal(reads_back);
    assert forall|s: Seq<u8>, pos: int| #[trigger] has_at(s, pos, id_writer()(id)) implies (
    id_reader())(s, pos) == Some((id, pos + id_writer()(id).len())) by {
        lemma_parse_text(s, pos, ulid_text(id));
    }
}

/// A block that fits is read back where it stands.
pub proof fn lemma_parse_block(s: Seq<u8>, pos: int, b: BlockText)
    requires
        has_at(s, pos, block(b)),
        block_fits(b),
    ensures
        parse_block(s, pos) == Some((b, pos + block(b).len())),
{
    let title = optional(b.title, text_writer());
    lemma_has_at_split(s, pos, title, counted(b.items, text_writer()));
    if b.title is Some {
        lemma_text_reads_back(b.title->0);
    }
    lemma_parse_optional(s, pos, b.title, text_writer(), text_reader());
    assert forall|i: int| 0 <= i < b.items.len() implies reads_back(
        #[trigger] b.items[i],
        text_writer(),
        text_reader(),
    ) by {
        lemma_text_reads_back(b.items[i]);
    }
    assert forall|i: int| 0 <= i < b.items.len() implies text_writer()(
        #[trigger] b.items[i],
    ).len() >= 1 by {
        lemma_varint_not_empty(encode_utf8(b.items[i]).len());
    }
    lemma_parse_counted(s, pos + title.len(), b.items, text_writer(), text_reader());
}

/// A block that fits is read back.
pub proof fn lemma_block_reads_back(b: BlockText)
    requires
        block_fits(b),
    ensures
        reads_back(b, block_writer(), block_reader()),
{
    reveal(reads_back);
    assert forall|s: Seq<u8>, pos: int| #[trigger] has_at(s, pos, block_writer()(b)) implies (
    block_reader())(s, pos) == Some((b, pos + block_writer()(b).len())) by {
        lemma_parse_block(s, pos, b);
    }
}

/// The fields of a document that fits are read back where they stand.
pub proof fn lemma_parse_fields(s: Seq<u8>, pos: int, d: DocumentText)
    requires
        has_at(s, pos, fields(d)),
        document_fits(d),
    ensures
        parse_fields(s, pos) == Some((d, pos + fields(d).len())),
{
    let title = text(d.title);
    let ingredients = counted(d.ingredients, block_writer());
    let instructions = counted(d.instructions, block_writer());
    let notes = optional(d.notes, text_writer());
    let tag_ids = counted(d.tag_ids, id_writer());
    let image_id = optional(d.image_id, id_writer());
    let after_title = pos + title.len();
    let after_ingredients = after_title + ingredients.len();
    let after_instructions = after_ingredients + instructions.len();
    let after_notes = after_instructions + notes.len();
    let after_tags = after_notes + tag_ids.len();
    assert(has_at(s, pos, title) && has_at(s, after_title, ingredients) && has_at(
        s,
        after_ingredients,
        instructions,
    ) && has_at(s, after_instructions, notes) && has_at(s, after_notes, tag_ids) && has_at(
        s,
        after_tags,
        image_id,
    )) by {
        lemma_has_at_split(s, pos, title + ingredients + instructions + notes + tag_ids, image_id);
        lemma_has_at_split(s, pos, title + ingredients + instructions + notes, tag_ids);
        lemma_has_at_split(s, pos, title + ingredients + instructions, notes);
        lemma_has_at_split(s, pos, title + ingredients, instructions);
        lemma_has_at_split(s, pos, title, ingredients);
    }
    assert(parse_text(s, pos) == Some((d.title, after_title))) by {
        lemma_parse_text(s, pos, d.title);
    }
    assert(parse_counted(s, after_title, block_reader()) == Some(
        (d.ingredients, after_ingredients),
    )) by {
        assert forall|i: int| 0 <= i < d.ingredients.len() implies reads_back(
            #[trigger] d.ingredients[i],
            block_writer(),
            block_reader(),
        ) by {
            lemma_block_reads_back(d.ingredients[i]);
        }
        assert forall|i: int| 0 <= i < d.ingredients.len() implies block_writer()(
            #[trigger] d.ingredients[i],
        ).len() >= 1 by {}
        lemma_parse_counted(s, after_title, d.ingredients, block_writer(), block_reader());
    }
    assert(parse_counted(s, after_ingredients, block_reader()) == Some(
        (d.instructions, after_instructions),
    )) by {
        assert forall|i: int| 0 <= i < d.instructions.len() implies reads_back(
            #[trigger] d.instructions[i],
            block_writer(),
            block_reader(),
        ) by {
            lemma_block_reads_back(d.instructions[i]);
        }
        assert forall|i: int| 0 <= i < d.instructions.len() implies block_writer()(
            #[trigger] d.instructions[i],
        ).len() >= 1 by {}
        lemma_parse_counted(s, after_ingredients, d.instructions, block_writer(), block_reader());
    }
    assert(parse_optional(s, after_instructions, text_reader()) == Some((d.notes, after_notes))) by {
        if d.notes is Some {
            lemma_text_reads_back(d.notes->0);
        }
        lemma_parse_optional(s, after_instructions, d.notes, text_writer(), text_reader());
    }
    assert(parse_counted(s, after_notes, id_reader()) == Some((d.tag_ids, after_tags))) by {
        assert forall|i: int| 0 <= i < d.tag_ids.len() implies reads_back(
            #[trigger] d.tag_ids[i],
            id_writer(),
            id_reader(),
        ) by {
            lemma_id_reads_back(d.tag_ids[i]);
        }
        assert forall|i: int| 0 <= i < d.tag_ids.len() implies id_writer()(
            #[trigger] d.tag_ids[i],
        ).len() >= 1 by {
            lemma_varint_not_empty(encode_utf8(ulid_text(d.tag_ids[i])).len());
        }
        lemma_parse_counted(s, after_notes, d.tag_ids, id_writer(), id_reader());
    }
    assert(parse_optional(s, after_tags, id_reader()) == Some(
        (d.image_id, after_tags + image_id.len()),
    )) by {
        if d.image_id is Some {
            lemma_id_reads_back(d.image_id->0);
        }
        lemma_parse_optional(s, after_tags, d.image_id, id_writer(), id_reader());
    }
}

/// Reading undoes writing: the stored bytes of a document that fits hold
/// exactly that document.
pub proof fn lemma_parse_document(d: DocumentText)
    requires
        document_fits(d),
    ensures
        parse_document(document(d)) == Some(d),
{
    let s = document(d);
    let version = varint(VERSION_1 as nat);
    assert(s.subrange(0, s.len() as int) =~= s);
    lemma_has_at_split(s, 0, version, fields(d));
    lemma_parse_len(s, 0, VERSION_1 as nat);
    lemma_parse_fields(s, version.len() as int, d);
}

/// The text that an optional string holds.
pub open spec fn text_of(value: Option<String>) -> Option<Seq<char>> {
    match value {
        Some(t) => Some(t@),
        None => None,
    }
}

/// The value that an optional identifier holds.
pub open spec fn value_of(id: Option<Id>) -> Option<u128> {
    match id {
        Some(id) => Some(id@),
        None => None,
    }
}

/// Appends an optional text.
fn write_optional_text(out: &mut Vec<u8>, value: &Option<String>)
    ensures
        final(out)@ == old(out)@ + optional(text_of(*value), text_writer()),
        text_of(*value) matches Some(t) ==> text_fits(t),
{
    match value {
        None => {
            out.push(0);
            assert(out@ =~= old(out)@ + optional(text_of(*value), text_writer()));
        },
        Some(t) => {
            out.push(1);
            write_text(out, t.as_str());
            assert(out@ =~= old(out)@ + optional(text_of(*value), text_writer()));
        },
    }
}

/// Appends an identifier.
fn write_id(out: &mut Vec<u8>, id: &Id)
    ensures
        final(out)@ == old(out)@ + id_writer()(id@),
        id_fits(id@),
{
    let written = id.to_string();
    write_text(out, written.as_str());
}

/// Appends an optional identifier.
fn write_optional_id(out: &mut Vec<u8>, value: &Option<Id>)
    ensures
        final(out)@ == old(out)@ + optional(value_of(*value), id_writer()),
        value_of(*value) matches Some(id) ==> id_fits(id),
{
    match value {
        None => {
            out.push(0);
            assert(out@ =~= old(out)@ + optional(value_of(*value), id_writer()));
        },
        Some(id) => {
            out.push(1);
            write_id(out, id);
            assert(out@ =~= old(out)@ + optional(value_of(*value), id_writer()));
        },
    }
}

/// Appends a text of a sequence.
fn write_item_text(out: &mut Vec<u8>, t: &String)
    ensures
        final(out)@ == old(out)@ + text_writer()(t@),
        text_fits(t@),
{
    write_text(out, t.as_str());
}

/// Appends a sequence of texts.
fn write_texts(out: &mut Vec<u8>, values: &Vec<String>)
    ensures
        final(out)@ == old(out)@ + counted(values.deep_view(), text_writer()),
        values.len() <= max_len(),
        forall|j: int| 0 <= j < values.len() ==> text_fits(#[trigger] values.deep_view()[j]),
{
    write_varint(out, values.len() as u128);
    let ghost texts = values.deep_view();
    let ghost start = out@;
    assert(texts.take(0) =~= Seq::empty());
    assert(out@ =~= start + items(texts.take(0), text_writer()));
    let mut i: usize = 0;
    while i < values.len()
        invariant
            i <= values.len(),
            texts == values.deep_view(),
            out@ == start + items(texts.take(i as int), text_writer()),
            forall|j: int| 0 <= j < i ==> text_fits(#[trigger] values.deep_view()[j]),
        decreases values.len() - i,
    {
        write_item_text(out, &values[i]);
        proof {
            lemma_items_push(texts, i as int, text_writer());
            assert(out@ =~= start + items(texts.take(i + 1), text_writer()));
        }
        i += 1;
    }
    assert(texts.take(values.len() as int) =~= texts);
    assert(out@ =~= old(out)@ + counted(texts, text_writer()));
}

/// Appends a block.
fn write_block(out: &mut Vec<u8>, b: &StringifiedBlock)
    ensures
        final(out)@ == old(out)@ + block_writer()(b.deep_view()),
        block_fits(b.deep_view()),
{
    write_optional_text(out, &b.title);
    write_texts(out, &b.items);
    assert(out@ =~= old(out)@ + block(b.deep_view()));
}

/// Appends a sequence of blocks.
fn write_blocks(out: &mut Vec<u8>, values: &Vec<StringifiedBlock>)
    ensures
        final(out)@ == old(out)@ + counted(values.deep_view(), block_writer()),
        values.len() <= max_len(),
        forall|j: int| 0 <= j < values.len() ==> block_fits(#[trigger] values.deep_view()[j]),
{
    write_varint(out, values.len() as u128);
    let ghost texts = values.deep_view();
    let ghost start = out@;
    assert(texts.take(0) =~= Seq::empty());
    assert(out@ =~= start + items(texts.take(0), block_writer()));
    let mut i: usize = 0;
    while i < values.len()
        invariant
            i <= values.len(),
            texts == values.deep_view(),
            out@ == start + items(texts.take(i as int), block_writer()),
            forall|j: int| 0 <= j < i ==> block_fits(#[trigger] values.deep_view()[j]),
        decreases values.len() - i,
    {
        write_block(out, &values[i]);
        proof {
            lemma_items_push(texts, i as int, block_writer());
            assert(out@ =~= start + items(texts.take(i + 1), block_writer()));
        }
        i += 1;
    }
    assert(texts.take(values.len() as int) =~= texts);
    assert(out@ =~= old(out)@ + counted(texts, block_writer()));
}

/// Appends a sequence of identifiers.
fn write_ids(out: &mut Vec<u8>, values: &Vec<Id>)
    ensures
        final(out)@ == old(out)@ + counted(values.deep_view(), id_writer()),
        values.len() <= max_len(),
        forall|j: int| 0 <= j < values.len() ==> id_fits(#[trigger] values.deep_view()[j]),
{
    write_varint(out, values.len() as u128);
    let ghost texts = values.deep_view();
    let ghost start = out@;
    assert(texts.take(0) =~= Seq::empty());
    assert(out@ =~= start + items(texts.take(0), id_writer()));
    let mut i: usize = 0;
    while i < values.len()
        invariant
            i <= values.len(),
            texts == values.deep_view(),
            out@ == start + items(texts.take(i as int), id_writer()),
            forall|j: int| 0 <= j < i ==> id_fits(#[trigger] values.deep_view()[j]),
        decreases values.len() - i,
    {
        write_id(out, &values[i]);
        proof {
            lemma_items_push(texts, i as int, id_writer());
            assert(out@ =~= start + items(texts.take(i + 1), id_writer()));
        }
        i += 1;
    }
    assert(texts.take(values.len() as int) =~= texts);
    assert(out@ =~= old(out)@ + counted(texts, id_writer()));
}

/// Reads an optional text at `pos`.
fn read_optional_text(bytes: &[u8], pos: usize) -> (parsed: Option<(Option<String>, usize)>)
    ensures
        match parsed {
            Some((value, next)) => parse_optional(bytes@, pos as int, text_reader()) == Some(
                (text_of(value), next as int),
            ) && pos < next <= bytes.len(),
            None => parse_optional(bytes@, pos as int, text_reader()) is None,
        },
{
    if pos >= bytes.len() {
        return None;
    }
    let tag = bytes[pos];
    if tag == 0 {
        Some((None, pos + 1))
    } else if tag == 1 {
        match read_text(bytes, pos + 1) {
            Some((t, next)) => Some((Some(t), next)),
            None => None,
        }
    } else {
        None
    }
}

/// Reads an identifier at `pos`.
fn read_id(bytes: &[u8], pos: usize) -> (parsed: Option<(Id, usize)>)
    ensures
        match parsed {
            Some((id, next)) => id_reader()(bytes@, pos as int) == Some((id@, next as int)) && pos
                < next <= bytes.len(),
            None => id_reader()(bytes@, pos as int) is None,
        },
{
    match read_text(bytes, pos) {
        Some((written, next)) => match Id::try_from(written.as_str()) {
            Ok(id) => Some((id, next)),
            Err(_) => None,
        },
        None => None,
    }
}

/// Reads an optional identifier at `pos`.
fn read_optional_id(bytes: &[u8], pos: usize) -> (parsed: Option<(Option<Id>, usize)>)
    ensures
        match parsed {
            Some((value, next)) => parse_optional(bytes@, pos as int, id_reader()) == Some(
                (value_of(value), next as int),
            ) && pos < next <= bytes.len(),
            None => parse_optional(bytes@, pos as int, id_reader()) is None,
        },
{
    if pos >= bytes.len() {
        return None;
    }
    let tag = bytes[pos];
    if tag == 0 {
        Some((None, pos + 1))
    } else if tag == 1 {
        match read_id(bytes, pos + 1) {
            Some((id, next)) => Some((Some(id), next)),
            None => None,
        }
    } else {
        None
    }
}

/// Reads a text of a sequence at `pos`.
fn read_item_text(bytes: &[u8], pos: usize) -> (parsed: Option<(String, usize)>)
    ensures
        match parsed {
            Some((t, next)) => text_reader()(bytes@, pos as int) == Some((t@, next as int)) && pos
                < next <= bytes.len(),
            None => text_reader()(bytes@, pos as int) is None,
        },
{
    read_text(bytes, pos)
}

/// Reads a sequence of texts at `pos`.
fn read_texts(bytes: &[u8], pos: usize) -> (parsed: Option<(Vec<String>, usize)>)
    ensures
        match parsed {
            Some((values, next)) => parse_counted(bytes@, pos as int, text_reader()) == Some(
                (values.deep_view(), next as int),
            ) && pos < next <= bytes.len(),
            None => parse_counted(bytes@, pos as int, text_reader()) is None,
        },
{
    let (count, start) = match read_len(bytes, pos) {
        Some(read) => read,
        None => {
            proof {
                lemma_parse_varint_advances(bytes@, pos as int, VARINT_LIMIT as nat, max_len());
                assert(bytes@.len() == vstd::slice::spec_slice_len(bytes));
            }
            return None;
        },
    };
    if count > bytes.len() - start {
        return None;
    }
    let mut values: Vec<String> = Vec::new();
    let mut at: usize = start;
    let mut i: usize = 0;
    assert(values.deep_view() =~= Seq::empty());
    assert(prepend(
        values.deep_view(),
        parse_items(bytes@, at as int, count as nat, text_reader()),
    ) == parse_items(bytes@, start as int, count as nat, text_reader())) by {
        match parse_items(bytes@, at as int, count as nat, text_reader()) {
            Some((rest, end)) => {
                assert(values.deep_view() + rest =~= rest);
            },
            None => {},
        }
    }
    while i < count
        invariant
            i <= count,
            start <= at <= bytes.len(),
            values.len() == i,
            parse_len(bytes@, pos as int) == Some((count as nat, start as int)),
            count <= bytes@.len() - start,
            pos < start,
            parse_items(bytes@, start as int, count as nat, text_reader()) == prepend(
                values.deep_view(),
                parse_items(bytes@, at as int, (count - i) as nat, text_reader()),
            ),
        decreases count - i,
    {
        proof {
            lemma_parse_items_step(
                bytes@,
                at as int,
                (count - i) as nat,
                text_reader(),
                values.deep_view(),
            );
        }
        let ghost front = values.deep_view();
        match read_item_text(bytes, at) {
            Some((value, next)) => {
                values.push(value);
                assert(values.deep_view() =~= front.push(value.deep_view()));
                at = next;
            },
            None => {
                return None;
            },
        }
        i += 1;
    }
    assert(values.deep_view() + Seq::empty() =~= values.deep_view());
    Some((values, at))
}

/// Reads a block at `pos`.
fn read_block(bytes: &[u8], pos: usize) -> (parsed: Option<(StringifiedBlock, usize)>)
    ensures
        match parsed {
            Some((b, next)) => block_reader()(bytes@, pos as int) == Some(
                (b.deep_view(), next as int),
            ) && pos < next <= bytes.len(),
            None => block_reader()(bytes@, pos as int) is None,
        },
{
    match read_optional_text(bytes, pos) {
        Some((title, after_title)) => match read_texts(bytes, after_title) {
            Some((items, next)) => Some((StringifiedBlock { title, items }, next)),
            None => None,
        },
        None => None,
    }
}

/// Reads a sequence of blocks at `pos`.
fn read_blocks(bytes: &[u8], pos: usize) -> (parsed: Option<(Vec<StringifiedBlock>, usize)>)
    ensures
        match parsed {
            Some((values, next)) => parse_counted(bytes@, pos as int, block_reader()) == Some(
                (values.deep_view(), next as int),
            ) && pos < next <= bytes.len(),
            None => parse_counted(bytes@, pos as int, block_reader()) is None,
        },
{
    let (count, start) = match read_len(bytes, pos) {
        Some(read) => read,
        None => {
            proof {
                lemma_parse_varint_advances(bytes@, pos as int, VARINT_LIMIT as nat, max_len());
                assert(bytes@.len() == vstd::slice::spec_slice_len(bytes));
            }
            return None;
        },
    };
    if count > bytes.len() - start {
        return None;
    }
    let mut values: Vec<StringifiedBlock> = Vec::new();
    let mut at: usize = start;
    let mut i: usize = 0;
    assert(values.deep_view() =~= Seq::empty());
    assert(prepend(
        values.deep_view(),
        parse_items(bytes@, at as int, count as nat, block_reader()),
    ) == parse_items(bytes@, start as int, count as nat, block_reader())) by {
        match parse_items(bytes@, at as int, count as nat, block_reader()) {
            Some((rest, end)) => {
                assert(values.deep_view() + rest =~= rest);
            },
            None => {},
        }
    }
    while i < count
        invariant
            i <= count,
            start <= at <= bytes.len(),
            values.len() == i,
            parse_len(bytes@, pos as int) == Some((count as nat, start as int)),
            count <= bytes@.len() - start,
            pos < start,
            parse_items(bytes@, start as int, count as nat, block_reader()) == prepend(
                values.deep_view(),
                parse_items(bytes@, at as int, (count - i) as nat, block_reader()),
            ),
        decreases count - i,
    {
        proof {
            lemma_parse_items_step(
                bytes@,
                at as int,
                (count - i) as nat,
                block_reader(),
                values.deep_view(),
            );
        }
        let ghost front = values.deep_view();
        match read_block(bytes, at) {
            Some((value, next)) => {
                values.push(value);
                assert(values.deep_view() =~= front.push(value.deep_view()));
                at = next;
            },
            None => {
                return None;
            },
        }
        i += 1;
    }
    assert(values.deep_view() + Seq::empty() =~= values.deep_view());
    Some((values, at))
}

/// Reads a sequence of identifiers at `pos`.
fn read_ids(bytes: &[u8], pos: usize) -> (parsed: Option<(Vec<Id>, usize)>)
    ensures
        match parsed {
            Some((values, next)) => parse_counted(bytes@, pos as int, id_reader()) == Some(
                (values.deep_view(), next as int),
            ) && pos < next <= bytes.len(),
            None => parse_counted(bytes@, pos as int, id_reader()) is None,
        },
{
    let (count, start) = match read_len(bytes, pos) {
        Some(read) => read,
        None => {
            proof {
                lemma_parse_varint_advances(bytes@, pos as int, VARINT_LIMIT as nat, max_len());
                assert(bytes@.len() == vstd::slice::spec_slice_len(bytes));
            }
            return None;
        },
    };
    if count > bytes.len() - start {
        return None;
    }
    let mut values: Vec<Id> = Vec::new();
    let mut at: usize = start;
    let mut i: usize = 0;
    assert(values.deep_view() =~= Seq::empty());
    assert(prepend(
        values.deep_view(),
        parse_items(bytes@, at as int, count as nat, id_reader()),
    ) == parse_items(bytes@, start as int, count as nat, id_reader())) by {
        match parse_items(bytes@, at as int, count as nat, id_reader()) {
            Some((rest, end)) => {
                assert(values.deep_view() + rest =~= rest);
            },
            None => {},
        }
    }
    while i < count
        invariant
            i <= count,
            start <= at <= bytes.len(),
            values.len() == i,
            parse_len(bytes@, pos as int) == Some((count as nat, start as int)),
            count <= bytes@.len() - start,
            pos < start,
            parse_items(bytes@, start as int, count as nat, id_reader()) == prepend(
                values.deep_view(),
                parse_items(bytes@, at as int, (count - i) as nat, id_reader()),
            ),
        decreases count - i,
    {
        proof {
            lemma_parse_items_step(
                bytes@,
                at as int,
                (count - i) as nat,
                id_reader(),
                values.deep_view(),
            );
        }
        let ghost front = values.deep_view();
        match read_id(bytes, at) {
            Some((value, next)) => {
                values.push(value);
                assert(values.deep_view() =~= front.push(value.deep_view()));
                at = next;
            },
            None => {
                return None;
            },
        }
        i += 1;
    }
    assert(values.deep_view() + Seq::empty() =~= values.deep_view());
    Some((values, at))
}

/// The bytes that a document is stored as. Every document can be stored.
pub fn encode(versioned: &VersionedRecipeDocument) -> (bytes: Vec<u8>)
    ensures
        bytes@ == document(versioned.deep_view()),
        document_fits(versioned.deep_view()),
        bytes@.len() >= 1,
{
    let mut out: Vec<u8> = Vec::new();
    match versioned {
        VersionedRecipeDocument::V1 {
            title,
            ingredients,
            instructions,
            notes,
            tag_ids,
            image_id,
        } => {
            write_varint(&mut out, VERSION_1 as u128);
            write_text(&mut out, title.as_str());
            write_blocks(&mut out, ingredients);
            write_blocks(&mut out, instructions);
            write_optional_text(&mut out, notes);
            write_ids(&mut out, tag_ids);
            write_optional_id(&mut out, image_id);
        },
    }
    proof {
        lemma_varint_not_empty(VERSION_1 as nat);
        assert(out@ =~= document(versioned.deep_view()));
    }
    out
}

/// The document that stored bytes hold, if they hold one.
pub fn decode(bytes: &[u8]) -> (decoded: Option<VersionedRecipeDocument>)
    ensures
        match decoded {
            Some(versioned) => parse_document(bytes@) == Some(versioned.deep_view()),
            None => parse_document(bytes@) is None,
        },
{
    let start = match read_len(bytes, 0) {
        Some((version, start)) => {
            if version != VERSION_1 as usize {
                return None;
            }
            start
        },
        None => {
            return None;
        },
    };
    let (title, after_title) = match read_text(bytes, start) {
        Some(read) => read,
        None => {
            return None;
        },
    };
    let (ingredients, after_ingredients) = match read_blocks(bytes, after_title) {
        Some(read) => read,
        None => {
            return None;
        },
    };
    let (instructions, after_instructions) = match read_blocks(bytes, after_ingredients) {
        Some(read) => read,
        None => {
            return None;
        },
    };
    let (notes, after_notes) = match read_optional_text(bytes, after_instructions) {
        Some(read) => read,
        None => {
            return None;
        },
    };
    let (tag_ids, after_tags) = match read_ids(bytes, after_notes) {
        Some(read) => read,
        None => {
            return None;
        },
    };
    let (image_id, end) = match read_optional_id(bytes, after_tags) {
        Some(read) => read,
        None => {
            return None;
        },
    };
    if end != bytes.len() {
        return None;
    }
    Some(VersionedRecipeDocument::V1 { title, ingredients, instructions, notes, tag_ids, image_id })
}

} // verus!
