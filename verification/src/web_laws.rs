//! What the rows of a web archive hold.
use vstd::prelude::*;
use vstd::utf8::{decode_utf8, valid_utf8};

use crate::readers::min_nat;
use crate::web::{
    after_entries, archive_rows, entry_parts, last_dot_at, law_limit_holds, lowered, WebRowView,
    WebState,
};

verus! {

// ---------------------------------------------------------------------------
// Names of entries.
// ---------------------------------------------------------------------------

/// Whether a text has no dot.
pub open spec fn dotless(s: Seq<char>) -> bool {
    forall|i: int| 0 <= i < s.len() ==> #[trigger] s[i] != '.'
}

/// Whether a text has no capital ASCII letter.
pub open spec fn no_capitals(s: Seq<char>) -> bool {
    forall|i: int| 0 <= i < s.len() ==> !('A' <= #[trigger] s[i] && s[i] <= 'Z')
}

proof fn lemma_last_dot(key: Seq<char>, ext: Seq<char>)
    requires
        dotless(ext),
    ensures
        last_dot_at(key + seq!['.'] + ext) == key.len(),
    decreases ext.len(),
{
    let name = key + seq!['.'] + ext;
    if ext.len() == 0 {
        assert(name.last() == '.');
    } else {
        assert(name.last() == ext.last());
        assert(ext[ext.len() - 1] != '.');
        assert(name.drop_last() =~= key + seq!['.'] + ext.drop_last());
        lemma_last_dot(key, ext.drop_last());
    }
}

/// An entry named by a key, a dot and a type without dots and capitals has that key and that type,
/// whatever dots the key has.
pub proof fn law_names_are_split_at_the_last_dot(key: Seq<char>, ext: Seq<char>)
    requires
        key.len() > 0,
        ext.len() > 0,
        dotless(ext),
        no_capitals(ext),
    ensures
        entry_parts(key + seq!['.'] + ext) == Some((key, ext)),
{
    let name = key + seq!['.'] + ext;
    lemma_last_dot(key, ext);
    assert(name.take(key.len() as int) =~= key);
    assert(name.skip(key.len() as int + 1) =~= ext);
    assert(lowered(ext) =~= ext);
}

proof fn lemma_where_the_dot_is(name: Seq<char>)
    ensures
        -1 <= last_dot_at(name) < name.len(),
        last_dot_at(name) >= 0 ==> name[last_dot_at(name)] == '.',
        forall|i: int| last_dot_at(name) < i < name.len() ==> #[trigger] name[i] != '.',
    decreases name.len(),
{
    if name.len() > 0 && name.last() != '.' {
        let front = name.drop_last();
        lemma_where_the_dot_is(front);
        assert forall|i: int| last_dot_at(name) < i < name.len() implies #[trigger] name[i]
            != '.' by {
            if i < front.len() {
                assert(front[i] == name[i]);
            }
        }
    }
}

/// The key and the type of an entry together make its name, but for the case of the type. The type
/// has no dot and no capitals, and neither is empty. A name without such parts has no dot but at
/// its ends.
pub proof fn law_names_are_kept(name: Seq<char>)
    ensures
        match entry_parts(name) {
            Some((key, ext)) => {
                &&& key.len() > 0 && ext.len() > 0
                &&& dotless(ext) && no_capitals(ext)
                &&& name.len() == key.len() + 1 + ext.len()
                &&& name.take(key.len() as int) == key
                &&& name[key.len() as int] == '.'
                &&& forall|i: int|
                    0 <= i < ext.len() && !('A' <= name[key.len() + 1 + i] && name[key.len() + 1
                        + i] <= 'Z') ==> #[trigger] ext[i] == name[key.len() + 1 + i]
                &&& forall|i: int|
                    0 <= i < ext.len() && 'A' <= name[key.len() + 1 + i] && name[key.len() + 1 + i]
                        <= 'Z' ==> #[trigger] ext[i] as int == name[key.len() + 1 + i] as int + 32
            },
            None => name.len() == 0 || name.last() == '.' || forall|i: int|
                1 <= i < name.len() ==> #[trigger] name[i] != '.',
        },
{
    lemma_where_the_dot_is(name);
    let at = last_dot_at(name);
    match entry_parts(name) {
        Some((key, ext)) => {
            let tail = name.skip(at + 1);
            assert forall|i: int| 0 <= i < ext.len() implies #[trigger] ext[i] != '.' && !('A'
                <= ext[i] && ext[i] <= 'Z') by {
                assert(tail[i] == name[at + 1 + i]);
                assert(name[at + 1 + i] != '.');
            }
        },
        None => {
            if at == name.len() - 1 && name.len() > 0 {
                assert(name[name.len() - 1] == '.');
            }
        },
    }
}

// ---------------------------------------------------------------------------
// Runs of entries.
// ---------------------------------------------------------------------------

/// Entries of one key that follow each other: the key, and the type and data of each.
#[verifier::ext_equal]
pub struct KeyRun {
    pub key: Seq<char>,
    pub parts: Seq<(Seq<char>, Seq<u8>)>,
}

/// The runs of an archive: its entries in order, those of equal keys that follow each other taken
/// together, and those whose names say nothing left out.
pub open spec fn key_runs_of(entries: Seq<(Seq<char>, Seq<u8>)>) -> Seq<KeyRun>
    decreases entries.len(),
{
    if entries.len() == 0 {
        Seq::empty()
    } else {
        let front = key_runs_of(entries.drop_last());
        match entry_parts(entries.last().0) {
            Some((key, ext)) => {
                let part = (ext, entries.last().1);
                if front.len() > 0 && front.last().key == key {
                    front.drop_last().push(
                        KeyRun { key, parts: front.last().parts.push(part) },
                    )
                } else {
                    front.push(KeyRun { key, parts: seq![part] })
                }
            },
            None => front,
        }
    }
}

/// Whether a file type is that of a picture.
pub open spec fn is_picture(ext: Seq<char>) -> bool {
    ext == "jpg"@ || ext == "jpeg"@ || ext == "png"@ || ext == "webp"@
}

/// Whether `at` is the last part of a run that is of some sort.
pub open spec fn is_last_part(
    parts: Seq<(Seq<char>, Seq<u8>)>,
    sort: spec_fn(Seq<char>) -> bool,
    at: int,
) -> bool {
    &&& 0 <= at < parts.len()
    &&& sort(parts[at].0)
    &&& forall|k: int| at < k < parts.len() ==> !sort(#[trigger] parts[k].0)
}

/// Whether no part of a run is of some sort.
pub open spec fn has_no_part(
    parts: Seq<(Seq<char>, Seq<u8>)>,
    sort: spec_fn(Seq<char>) -> bool,
) -> bool {
    forall|k: int| 0 <= k < parts.len() ==> !sort(#[trigger] parts[k].0)
}

/// Whether a caption is that of a run: the text of its last `txt` entry, empty where that is no
/// UTF-8, and missing where there is none.
pub open spec fn is_caption_of(
    caption: Option<Seq<char>>,
    parts: Seq<(Seq<char>, Seq<u8>)>,
) -> bool {
    let is_text = |ext: Seq<char>| ext == "txt"@;
    match caption {
        Some(text) => exists|at: int| #[trigger]
            is_last_part(parts, is_text, at) && (if valid_utf8(parts[at].1) {
                text == decode_utf8(parts[at].1)
            } else {
                text.len() == 0
            }),
        None => has_no_part(parts, is_text),
    }
}

/// Whether an image and its type are those of a run: the data of its last picture with its type,
/// and missing where there is none.
pub open spec fn is_image_of(
    image: Option<Seq<u8>>,
    image_ext: Option<Seq<char>>,
    parts: Seq<(Seq<char>, Seq<u8>)>,
) -> bool {
    let sort = |ext: Seq<char>| is_picture(ext);
    match (image, image_ext) {
        (Some(data), Some(ext)) => exists|at: int| #[trigger]
            is_last_part(parts, sort, at) && parts[at] == (ext, data),
        (None, None) => has_no_part(parts, sort),
        _ => false,
    }
}

/// Whether a row is that of a run.
pub open spec fn is_row_of(row: WebRowView, run: KeyRun) -> bool {
    &&& row.key == run.key
    &&& is_caption_of(row.caption, run.parts)
    &&& is_image_of(row.image, row.image_ext, run.parts)
}

/// What has been read of a run.
spec fn is_state_of(s: WebState, run: KeyRun) -> bool {
    &&& s.key == Some(run.key)
    &&& is_caption_of(s.caption, run.parts)
    &&& is_image_of(s.image, s.image_ext, run.parts)
}

proof fn lemma_types_differ()
    ensures
        !is_picture("txt"@),
{
    reveal_strlit("txt");
    reveal_strlit("jpg");
    reveal_strlit("jpeg");
    reveal_strlit("png");
    reveal_strlit("webp");
    assert("txt"@[0] == 't' && "jpg"@[0] == 'j' && "png"@[0] == 'p');
    assert("txt"@.len() == 3 && "jpeg"@.len() == 4 && "webp"@.len() == 4);
}

proof fn lemma_one_more_part(
    parts: Seq<(Seq<char>, Seq<u8>)>,
    part: (Seq<char>, Seq<u8>),
    caption: Option<Seq<char>>,
    image: Option<Seq<u8>>,
    image_ext: Option<Seq<char>>,
)
    requires
        is_caption_of(caption, parts),
        is_image_of(image, image_ext, parts),
    ensures
        part.0 != "txt"@ ==> is_caption_of(caption, parts.push(part)),
        part.0 == "txt"@ && valid_utf8(part.1) ==> is_caption_of(
            Some(decode_utf8(part.1)),
            parts.push(part),
        ),
        part.0 == "txt"@ && !valid_utf8(part.1) ==> is_caption_of(
            Some(Seq::<char>::empty()),
            parts.push(part),
        ),
        !is_picture(part.0) ==> is_image_of(image, image_ext, parts.push(part)),
        is_picture(part.0) ==> is_image_of(Some(part.1), Some(part.0), parts.push(part)),
{
    let more = parts.push(part);
    let n = parts.len() as int;
    let is_text = |ext: Seq<char>| ext == "txt"@;
    let sort = |ext: Seq<char>| is_picture(ext);
    assert(more[n] == part);
    assert(forall|k: int| 0 <= k < n ==> more[k] == parts[k]);
    if part.0 == "txt"@ {
        assert(is_last_part(more, is_text, n));
    } else if caption is Some {
        let at = choose|at: int| #[trigger] is_last_part(parts, is_text, at) && (if valid_utf8(
            parts[at].1,
        ) {
            caption->0 == decode_utf8(parts[at].1)
        } else {
            caption->0.len() == 0
        });
        assert(is_last_part(more, is_text, at));
    }
    if is_picture(part.0) {
        assert(is_last_part(more, sort, n));
    } else if image is Some {
        let at = choose|at: int| #[trigger] is_last_part(parts, sort, at) && parts[at] == (
            image_ext->0,
            image->0,
        );
        assert(is_last_part(more, sort, at));
    }
}

proof fn lemma_rows(entries: Seq<(Seq<char>, Seq<u8>)>, start: WebState)
    requires
        start == (WebState {
            remaining: None,
            key: None,
            caption: None,
            image: None,
            image_ext: None,
        }),
    ensures
        ({
            let (s, rows) = after_entries(start, entries);
            let runs = key_runs_of(entries);
            &&& s.remaining is None
            &&& s.key is None ==> runs.len() == 0 && rows.len() == 0 && s == start
            &&& s.key is Some ==> runs.len() == rows.len() + 1 && is_state_of(s, runs.last())
            &&& forall|k: int| 0 <= k < rows.len() ==> is_row_of(#[trigger] rows[k], runs[k])
        }),
    decreases entries.len(),
{
    if entries.len() > 0 {
        let front = entries.drop_last();
        lemma_rows(front, start);
        let (before, earlier) = after_entries(start, front);
        let (s, rows) = after_entries(start, entries);
        let runs = key_runs_of(entries);
        let runs_before = key_runs_of(front);
        match entry_parts(entries.last().0) {
            Some((key, ext)) => {
                let data = entries.last().1;
                lemma_types_differ();
                let none = Seq::<(Seq<char>, Seq<u8>)>::empty();
                lemma_one_more_part(none, (ext, data), None, None, None);
                assert(none.push((ext, data)) =~= seq![(ext, data)]);
                if before.key is Some {
                    lemma_one_more_part(
                        runs_before.last().parts,
                        (ext, data),
                        before.caption,
                        before.image,
                        before.image_ext,
                    );
                }
                if before.key == Some(key) {
                    assert(rows == earlier);
                    assert(is_state_of(s, runs.last()));
                } else {
                    assert(is_state_of(s, runs.last()));
                }
            },
            None => {},
        }
    }
}

/// The rows of an archive are its runs of entries of one key, in order. The image of a row is that
/// of the last picture of its run, its caption that of the last text; entries of any other type
/// change neither. With a limit, as many rows come as the limit allows.
pub proof fn law_rows_are_their_runs(limit: Option<u64>, entries: Seq<(Seq<char>, Seq<u8>)>)
    ensures
        ({
            let rows = archive_rows(limit, entries);
            let runs = key_runs_of(entries);
            &&& rows.len() == match limit {
                Some(n) => min_nat(n as nat, runs.len()),
                None => runs.len(),
            }
            &&& forall|k: int| 0 <= k < rows.len() ==> is_row_of(#[trigger] rows[k], runs[k])
        }),
{
    let start = WebState {
        remaining: None,
        key: None,
        caption: None,
        image: None,
        image_ext: None,
    };
    lemma_rows(entries, start);
    let all = archive_rows(None, entries);
    let runs = key_runs_of(entries);
    assert(all.len() == runs.len());
    assert forall|k: int| 0 <= k < all.len() implies is_row_of(#[trigger] all[k], runs[k]) by {}
    if let Some(n) = limit {
        law_limit_holds(n, entries);
        let rows = archive_rows(limit, entries);
        assert forall|k: int| 0 <= k < rows.len() implies is_row_of(#[trigger] rows[k], runs[k]) by {
            assert(rows[k] == all[k]);
        }
    }
}

} // verus!
