//! What a pinned table version tells without reading data.

use std::collections::HashMap;
use vstd::prelude::*;

use crate::error::{self, OmniError};
use crate::storage::{StorageFailure, StorageFailureKind};
use crate::text::{self, decimal_text, joined};

verus! {

/// One data file of a fragment: its immutable path and the fields it holds.
#[derive(Debug)]
pub struct DataFile {
    pub path: String,
    pub fields: Vec<i32>,
}

/// One fragment of a table version.
#[derive(Debug)]
pub struct Fragment {
    pub id: u64,
    pub files: Vec<DataFile>,
    /// Whether the fragment's sequence of row update versions is there and can
    /// be decoded.
    pub update_versions_loadable: bool,
}

/// A pinned table version as its manifest describes it.
#[derive(Debug)]
pub struct TableSnapshot {
    pub version: u64,
    pub uses_stable_row_ids: bool,
    pub fragments: Vec<Fragment>,
}

/// A data file over plain values: its path and its fields.
pub open spec fn file_view(file: DataFile) -> (Seq<char>, Seq<i32>) {
    (file.path@, file.fields@)
}

/// A fragment over plain values.
pub struct FragmentView {
    pub id: u64,
    pub files: Seq<(Seq<char>, Seq<i32>)>,
    pub update_versions_loadable: bool,
}

impl View for Fragment {
    type V = FragmentView;

    open spec fn view(&self) -> FragmentView {
        FragmentView {
            id: self.id,
            files: self.files@.map_values(|file: DataFile| file_view(file)),
            update_versions_loadable: self.update_versions_loadable,
        }
    }
}

/// Fragments over plain values.
pub open spec fn fragment_views(fragments: Seq<Fragment>) -> Seq<FragmentView> {
    fragments.map_values(|fragment: Fragment| fragment@)
}

impl Fragment {
    /// A fragment without data files.
    pub fn new(id: u64) -> (r: Self)
        ensures
            r@ == (FragmentView { id, files: Seq::empty(), update_versions_loadable: false }),
    {
        let fragment = Fragment { id, files: Vec::new(), update_versions_loadable: false };
        assert(fragment@.files =~= Seq::empty());
        fragment
    }
}

impl Clone for Fragment {
    fn clone(&self) -> (r: Self)
        ensures
            r@ == self@,
    {
        let ghost all = self.files@.map_values(|file: DataFile| file_view(file));
        let mut files: Vec<DataFile> = Vec::new();
        let mut i: usize = 0;
        proof {
            assert(files@.map_values(|file: DataFile| file_view(file)) =~= all.take(0));
        }
        while i < self.files.len()
            invariant
                i <= self.files.len(),
                all == self.files@.map_values(|file: DataFile| file_view(file)),
                files@.map_values(|file: DataFile| file_view(file)) == all.take(i as int),
            decreases self.files.len() - i,
        {
            let ghost before = files@;
            let file = DataFile {
                path: self.files[i].path.clone(),
                fields: self.files[i].fields.clone(),
            };
            assert(file.fields@ =~= self.files@[i as int].fields@);
            files.push(file);
            proof {
                assert(files@.map_values(|file: DataFile| file_view(file)) =~= before.map_values(
                    |file: DataFile| file_view(file),
                ).push(file_view(file)));
                assert(all.take(i + 1) =~= all.take(i as int).push(all[i as int]));
            }
            i = i + 1;
        }
        assert(all.take(i as int) =~= all);
        Fragment { id: self.id, files, update_versions_loadable: self.update_versions_loadable }
    }
}

/// The fragments by id; of several with one id the last counts.
pub open spec fn fragment_map(fragments: Seq<Fragment>) -> Map<u64, Fragment>
    decreases fragments.len(),
{
    if fragments.len() == 0 {
        Map::empty()
    } else {
        fragment_map(fragments.drop_last()).insert(fragments.last().id, fragments.last())
    }
}

/// The path of the first of `files` that holds `field_id`.
pub open spec fn first_file_with(files: Seq<DataFile>, field_id: i32) -> Option<Seq<char>>
    decreases files.len(),
{
    if files.len() == 0 {
        None
    } else if files[0].fields@.contains(field_id) {
        Some(files[0].path@)
    } else {
        first_file_with(files.drop_first(), field_id)
    }
}

/// Indexes fragments by their id.
pub fn fragments_by_id<'a>(fragments: &'a Vec<Fragment>) -> (r: HashMap<u64, &'a Fragment>)
    ensures
        forall|id: u64| #[trigger] r@.contains_key(id) <==> fragment_map(fragments@).contains_key(id),
        forall|id: u64| #[trigger] r@.contains_key(id) ==> *r@[id] == fragment_map(fragments@)[id],
{
    broadcast use vstd::std_specs::hash::group_hash_axioms;

    let mut by_id: HashMap<u64, &'a Fragment> = HashMap::new();
    let mut i: usize = 0;
    while i < fragments.len()
        invariant
            i <= fragments.len(),
            forall|id: u64| #[trigger]
                by_id@.contains_key(id) <==> fragment_map(fragments@.take(i as int)).contains_key(id),
            forall|id: u64| #[trigger]
                by_id@.contains_key(id) ==> *by_id@[id] == fragment_map(
                    fragments@.take(i as int),
                )[id],
        decreases fragments.len() - i,
    {
        proof {
            assert(fragments@.take(i + 1).drop_last() == fragments@.take(i as int));
        }
        by_id.insert(fragments[i].id, &fragments[i]);
        i = i + 1;
    }
    assert(fragments@.take(i as int) == fragments@);
    by_id
}

fn holds_field(fields: &Vec<i32>, field_id: i32) -> (r: bool)
    ensures
        r == fields@.contains(field_id),
{
    let mut i: usize = 0;
    while i < fields.len()
        invariant
            i <= fields.len(),
            forall|k: int| 0 <= k < i ==> fields@[k] != field_id,
        decreases fields.len() - i,
    {
        if fields[i] == field_id {
            assert(fields@[i as int] == field_id);
            return true;
        }
        i = i + 1;
    }
    false
}

/// A storage failure without typed evidence.
pub(crate) fn unclassified_storage(message: String) -> (r: OmniError)
    ensures
        error::is_storage(r, StorageFailureKind::Unknown, "storage: "@ + message@),
{
    OmniError::Storage(
        StorageFailure::new(StorageFailureKind::Unknown, joined("storage: ", message.as_str())),
    )
}

/// The text for a fragment that the manifest lacks.
pub open spec fn no_fragment_text(fragment_id: u64) -> Seq<char> {
    "storage: "@ + ("change scan referenced fragment "@ + text::decimal(fragment_id as nat)
        + " absent from the manifest"@)
}

/// The decimal rendering of a signed number.
pub open spec fn signed_decimal(n: i32) -> Seq<char> {
    if n < 0 {
        "-"@ + text::decimal((-n) as nat)
    } else {
        text::decimal(n as nat)
    }
}

fn signed_decimal_text(n: i32) -> (r: String)
    ensures
        r@ == signed_decimal(n),
{
    if n < 0 {
        let magnitude: u64 = (-(n as i64)) as u64;
        joined("-", decimal_text(magnitude).as_str())
    } else {
        decimal_text(n as u64)
    }
}

/// The text for a fragment without a data file for a Blob field.
pub open spec fn no_data_file_text(fragment_id: u64, field_id: i32) -> Seq<char> {
    "storage: "@ + ("fragment "@ + text::decimal(fragment_id as nat)
        + " has no data file for blob field "@ + signed_decimal(field_id))
}

/// Resolves the immutable path of the data file that holds `field_id` in the
/// fragment that owns a row: the qualifier of a managed Blob identity.
pub fn data_file_path_for_field<'a>(
    fragments_by_id: &HashMap<u64, &'a Fragment>,
    fragment_id: u64,
    field_id: i32,
) -> (r: Result<&'a str, OmniError>)
    ensures
        match r {
            Ok(path) => fragments_by_id@.contains_key(fragment_id) && first_file_with(
                fragments_by_id@[fragment_id].files@,
                field_id,
            ) == Some(path@),
            Err(error) => if fragments_by_id@.contains_key(fragment_id) {
                first_file_with(fragments_by_id@[fragment_id].files@, field_id) is None
                    && error::is_storage(
                    error,
                    StorageFailureKind::Unknown,
                    no_data_file_text(fragment_id, field_id),
                )
            } else {
                error::is_storage(
                    error,
                    StorageFailureKind::Unknown,
                    no_fragment_text(fragment_id),
                )
            },
        },
{
    broadcast use vstd::std_specs::hash::group_hash_axioms;

    let fragment: &'a Fragment = match fragments_by_id.get(&fragment_id) {
        Some(fragment) => *fragment,
        None => {
            let mut message = joined(
                "change scan referenced fragment ",
                decimal_text(fragment_id).as_str(),
            );
            message.append(" absent from the manifest");
            return Err(unclassified_storage(message));
        },
    };
    let files: &'a Vec<DataFile> = &fragment.files;
    let mut i: usize = 0;
    assert(files@.skip(0) == files@);
    while i < files.len()
        invariant
            i <= files.len(),
            files == &fragment.files,
            fragments_by_id@.contains_key(fragment_id),
            fragments_by_id@[fragment_id] == fragment,
            first_file_with(files@, field_id) == first_file_with(files@.skip(i as int), field_id),
        decreases files.len() - i,
    {
        if holds_field(&files[i].fields, field_id) {
            return Ok(files[i].path.as_str());
        }
        assert(files@.skip(i as int).drop_first() == files@.skip(i + 1));
        i = i + 1;
    }
    let mut message = joined("fragment ", decimal_text(fragment_id).as_str());
    message.append(" has no data file for blob field ");
    message.append(signed_decimal_text(field_id).as_str());
    Err(unclassified_storage(message))
}

/// A fragment is read whole: its id, each data file with its path and its
/// fields, and whether its update versions can be read.
pub proof fn fragments_are_read_whole(fragments: Seq<Fragment>, i: int)
    requires
        0 <= i < fragments.len(),
    ensures
        fragment_views(fragments).len() == fragments.len(),
        fragment_views(fragments)[i].id == fragments[i].id,
        fragment_views(fragments)[i].update_versions_loadable
            == fragments[i].update_versions_loadable,
        fragment_views(fragments)[i].files.len() == fragments[i].files@.len(),
        forall|k: int|
            0 <= k < fragments[i].files@.len() ==> (#[trigger] fragment_views(
                fragments,
            )[i].files[k]).0 == fragments[i].files@[k].path@ && fragment_views(
                fragments,
            )[i].files[k].1 == fragments[i].files@[k].fields@,
{
}

/// A fragment is found by its id, and of several with one id the last one is.
pub proof fn the_last_fragment_of_an_id_is_found(fragments: Seq<Fragment>, id: u64)
    ensures
        fragment_map(fragments).contains_key(id) <==> exists|i: int|
            0 <= i < fragments.len() && (#[trigger] fragments[i]).id == id,
        fragment_map(fragments).contains_key(id) ==> exists|i: int|
            0 <= i < fragments.len() && (#[trigger] fragments[i]).id == id && fragments[i]
                == fragment_map(fragments)[id] && (forall|j: int|
                i < j < fragments.len() ==> (#[trigger] fragments[j]).id != id),
    decreases fragments.len(),
{
    if fragments.len() > 0 {
        let rest = fragments.drop_last();
        let last = fragments.len() - 1;
        the_last_fragment_of_an_id_is_found(rest, id);
        if fragments.last().id == id {
            assert(fragments[last].id == id);
        } else {
            if exists|i: int| 0 <= i < fragments.len() && (#[trigger] fragments[i]).id == id {
                let i = choose|i: int| 0 <= i < fragments.len() && (#[trigger] fragments[i]).id == id;
                assert(rest[i].id == id);
            }
            if fragment_map(fragments).contains_key(id) {
                let i = choose|i: int|
                    0 <= i < rest.len() && (#[trigger] rest[i]).id == id && rest[i]
                        == fragment_map(rest)[id] && (forall|j: int|
                        i < j < rest.len() ==> (#[trigger] rest[j]).id != id);
                assert(fragments[i].id == id);
                assert forall|j: int| i < j < fragments.len() implies (#[trigger] fragments[j]).id
                    != id by {
                    if j < last {
                        assert(rest[j].id != id);
                    }
                }
            }
        }
    }
}

/// The file of a field is the first that holds it; there is none where no file
/// does.
pub proof fn the_first_file_with_a_field_is_found(files: Seq<DataFile>, field_id: i32)
    ensures
        first_file_with(files, field_id) is None <==> forall|i: int|
            0 <= i < files.len() ==> !(#[trigger] files[i]).fields@.contains(field_id),
        first_file_with(files, field_id) matches Some(path) ==> exists|i: int|
            0 <= i < files.len() && (#[trigger] files[i]).fields@.contains(field_id)
                && files[i].path@ == path && (forall|j: int|
                0 <= j < i ==> !(#[trigger] files[j]).fields@.contains(field_id)),
    decreases files.len(),
{
    if files.len() > 0 {
        let rest = files.drop_first();
        the_first_file_with_a_field_is_found(rest, field_id);
        assert(forall|i: int| 0 <= i < rest.len() ==> rest[i] == #[trigger] files[i + 1]);
        if files[0].fields@.contains(field_id) {
            assert(files[0].fields@.contains(field_id));
        } else {
            match first_file_with(rest, field_id) {
                Some(path) => {
                    let i = choose|i: int|
                        0 <= i < rest.len() && (#[trigger] rest[i]).fields@.contains(field_id)
                            && rest[i].path@ == path && (forall|j: int|
                            0 <= j < i ==> !(#[trigger] rest[j]).fields@.contains(field_id));
                    assert(files[i + 1].fields@.contains(field_id));
                    assert forall|j: int| 0 <= j < i + 1 implies !(
                    #[trigger] files[j]).fields@.contains(field_id) by {
                        if j > 0 {
                            assert(rest[j - 1] == files[j]);
                        }
                    }
                },
                None => {
                    assert forall|i: int| 0 <= i < files.len() implies !(
                    #[trigger] files[i]).fields@.contains(field_id) by {
                        if i > 0 {
                            assert(rest[i - 1] == files[i]);
                        }
                    }
                },
            }
        }
    }
}

/// A fragment that is missing, and one without a file for a field, are named by
/// their numbers.
pub proof fn missing_fragments_are_named(fragment_id: u64, field_id: i32)
    ensures
        no_fragment_text(fragment_id) == "storage: "@ + ("change scan referenced fragment "@
            + text::decimal(fragment_id as nat) + " absent from the manifest"@),
        no_data_file_text(fragment_id, field_id) == "storage: "@ + ("fragment "@ + text::decimal(
            fragment_id as nat,
        ) + " has no data file for blob field "@ + signed_decimal(field_id)),
        field_id >= 0 ==> signed_decimal(field_id) == text::decimal(field_id as nat),
        field_id < 0 ==> signed_decimal(field_id) == "-"@ + text::decimal((-field_id) as nat),
{
}

} // verus!
