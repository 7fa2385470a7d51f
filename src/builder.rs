use vstd::prelude::*;
use vstd::string::*;
use crate::compression::CompressionType;
use crate::error::PortableAudioLibraryError;
use crate::serialization::{audio_views, names_unique, AudioMetadata, AudioView, Metadata};

pub mod directory;
pub mod m3u;

verus! {

/// The final component of a path, as std's `Path::file_name` gives it.
pub uninterp spec fn file_name_of(path: Seq<char>) -> Option<Seq<char>>;

/// Relies on std's `Path::file_name`: the final component of `path`, or
/// `None` where the path ends in `..` or has no component.
#[verifier::external_body]
fn file_name(path: &str) -> (r: Option<String>)
    ensures
        match r {
            Some(n) => file_name_of(path@) == Some(n@),
            None => file_name_of(path@) is None,
        },
{
    std::path::Path::new(path).file_name().map(|n| n.to_string_lossy().into_owned())
}

/// The playlist of files that sat at the top level of a source tree.
pub open spec fn root_playlist() -> Seq<char> {
    "root"@
}

/// Returns the name of the playlist of top-level files.
pub fn root_name() -> (r: String)
    ensures
        r@ == root_playlist(),
{
    String::from_str("root")
}

/// A file that an importer met: where it is, how large it is.
pub struct ScannedFile {
    pub path: String,
    pub size: u64,
}

/// A playlist that an importer met, with its files in the order met.
pub struct ScannedPlaylist {
    pub name: String,
    pub files: Vec<ScannedFile>,
}

/// A file met in a playlist, as plain values.
pub struct FoundView {
    pub playlist: Seq<char>,
    pub path: Seq<char>,
    pub size: u64,
}

/// A file met in a playlist.
pub struct FoundAudio {
    pub playlist: String,
    pub path: String,
    pub size: u64,
}

impl View for FoundAudio {
    type V = FoundView;

    open spec fn view(&self) -> FoundView {
        FoundView { playlist: self.playlist@, path: self.path@, size: self.size }
    }
}

/// The views of the files met.
pub open spec fn found_views(found: Seq<FoundAudio>) -> Seq<FoundView> {
    found.map_values(|f: FoundAudio| f@)
}

/// The files of `p`, each marked with `p`'s name.
pub open spec fn playlist_found(p: ScannedPlaylist) -> Seq<FoundView> {
    p.files@.map_values(|f: ScannedFile| FoundView { playlist: p.name@, path: f.path@, size: f.size })
}

/// Whether every file met has a file name.
pub open spec fn all_named(found: Seq<FoundView>) -> bool {
    forall|i: int| 0 <= i < found.len() ==> (#[trigger] file_name_of(found[i].path)) is Some
}

/// The file name of a file met (meaningful where it has one).
pub open spec fn found_name(f: FoundView) -> Seq<char> {
    match file_name_of(f.path) {
        Some(n) => n,
        None => Seq::empty(),
    }
}

/// Whether an entry of `audios` is named `name`.
pub open spec fn has_name(audios: Seq<AudioView>, name: Seq<char>) -> bool {
    exists|i: int| 0 <= i < audios.len() && audios[i].name == name
}

/// The position of the entry named `name` (meaningful where there is one).
pub open spec fn name_index(audios: Seq<AudioView>, name: Seq<char>) -> int {
    choose|i: int| 0 <= i < audios.len() && audios[i].name == name
}

/// Merges a file met in `playlist` into `audios`: an entry of the same name
/// gains the playlist and keeps its own size and path; otherwise a new entry
/// with this one playlist is appended.
pub open spec fn merge_one(audios: Seq<AudioView>, name: Seq<char>, f: FoundView) -> Seq<AudioView> {
    if has_name(audios, name) {
        let i = name_index(audios, name);
        audios.update(
            i,
            AudioView {
                name: audios[i].name,
                size: audios[i].size,
                playlists: audios[i].playlists.push(f.playlist),
                path: audios[i].path,
            },
        )
    } else {
        audios.push(AudioView { name, size: f.size, playlists: seq![f.playlist], path: f.path })
    }
}

/// The entries that merging every file met, in order, gives.
pub open spec fn merge_all(found: Seq<FoundView>) -> Seq<AudioView>
    decreases found.len(),
{
    if found.len() == 0 {
        Seq::empty()
    } else {
        merge_one(merge_all(found.drop_last()), found_name(found.last()), found.last())
    }
}

/// Index of the first file met that has no file name.
pub open spec fn first_unnamed(found: Seq<FoundView>) -> int {
    choose|i: int|
        0 <= i < found.len() && file_name_of(found[i].path) is None && forall|k: int|
            0 <= k < i ==> (#[trigger] file_name_of(found[k].path)) is Some
}

pub proof fn lemma_merge_one_unique(audios: Seq<AudioView>, name: Seq<char>, f: FoundView)
    requires
        names_unique(audios),
    ensures
        names_unique(merge_one(audios, name, f)),
{
}

/// Merges the file `f`, named `name`, into `audios`.
fn insert_audio_metadata(audios: &mut Vec<AudioMetadata>, name: String, f: &FoundAudio)
    requires
        names_unique(audio_views(old(audios)@)),
    ensures
        audio_views(final(audios)@) == merge_one(audio_views(old(audios)@), name@, f@),
        names_unique(audio_views(final(audios)@)),
{
    let ghost views = audio_views(audios@);
    let mut i: usize = 0;
    while i < audios.len()
        invariant
            i <= audios@.len(),
            audios@ == old(audios)@,
            views == audio_views(audios@),
            names_unique(views),
            forall|k: int| 0 <= k < i ==> (#[trigger] views[k]).name != name@,
        decreases audios@.len() - i,
    {
        if audios[i].name == name {
            proof {
                assert(views[i as int].name == name@);
                assert(has_name(views, name@));
                let j = name_index(views, name@);
                assert(j == i);
            }
            audios[i].playlists.push(f.playlist.clone());
            proof {
                let after = audio_views(audios@);
                let expect = merge_one(views, name@, f@);
                assert(after[i as int].playlists =~= expect[i as int].playlists);
                assert(after =~= expect);
                lemma_merge_one_unique(views, name@, f@);
            }
            return;
        }
        i = i + 1;
    }
    proof {
        assert(!has_name(views, name@));
    }
    let entry = AudioMetadata {
        name,
        size: f.size,
        playlists: vec![f.playlist.clone()],
        path: f.path.clone(),
    };
    audios.push(entry);
    proof {
        let after = audio_views(audios@);
        let expect = merge_one(views, name@, f@);
        assert(after.last().playlists =~= expect.last().playlists);
        assert(after =~= expect);
        lemma_merge_one_unique(views, name@, f@);
    }
}

/// Builds a library from the files met, in the order met: files are keyed
/// by file name, and a file whose name was met before only adds its playlist
/// to the first entry of that name. Fails on the first file whose path has
/// no file name.
pub fn merge_found(found: &Vec<FoundAudio>) -> (r: Result<Metadata, PortableAudioLibraryError>)
    ensures
        match r {
            Ok(m) => all_named(found_views(found@)) && audio_views(m.audios@)
                == merge_all(found_views(found@)) && m.name@ == Seq::<
                char,
            >::empty() && m.compression_type == CompressionType::Uncompressed && m.wf(),
            Err(e) => !all_named(found_views(found@)) && 0 <= first_unnamed(found_views(found@))
                < found@.len() && e == PortableAudioLibraryError::MissingFileName {
                path: found@[first_unnamed(found_views(found@))].path,
            },
        },
{
    let ghost fs = found_views(found@);
    let mut metadata = Metadata::default();
    let mut i: usize = 0;
    assert(fs.take(0) =~= Seq::<FoundView>::empty());
    while i < found.len()
        invariant
            i <= found@.len(),
            fs == found_views(found@),
            forall|k: int| 0 <= k < i ==> (#[trigger] file_name_of(fs[k].path)) is Some,
            audio_views(metadata.audios@) == merge_all(fs.take(i as int)),
            names_unique(audio_views(metadata.audios@)),
            metadata.name@ == Seq::<char>::empty(),
            metadata.compression_type == CompressionType::Uncompressed,
        decreases found@.len() - i,
    {
        let f = &found[i];
        match file_name(f.path.as_str()) {
            Some(name) => {
                proof {
                    assert(fs.take(i + 1).drop_last() =~= fs.take(i as int));
                    assert(found_name(fs[i as int]) == name@);
                }
                insert_audio_metadata(&mut metadata.audios, name, f);
            },
            None => {
                proof {
                    assert(0 <= i < fs.len() && file_name_of(fs[i as int].path) is None && forall|
                        k: int,
                    | 0 <= k < i ==> (#[trigger] file_name_of(fs[k].path)) is Some);
                    let j = first_unnamed(fs);
                    if j < i {
                        assert(file_name_of(fs[j].path) is Some);
                    }
                    if i < j {
                        assert(file_name_of(fs[i as int].path) is Some);
                    }
                }
                return Err(PortableAudioLibraryError::MissingFileName { path: f.path.clone() });
            },
        }
        i = i + 1;
    }
    assert(fs.take(i as int) =~= fs);
    Ok(metadata)
}

/// Appends the files of `p`, marked with `p`'s name, to `out`.
fn push_playlist(out: &mut Vec<FoundAudio>, p: &ScannedPlaylist)
    ensures
        found_views(final(out)@) == found_views(old(out)@)
            + playlist_found(*p),
{
    let ghost start = found_views(old(out)@);
    let mut j: usize = 0;
    while j < p.files.len()
        invariant
            j <= p.files@.len(),
            found_views(out@) == start + playlist_found(*p).take(j as int),
        decreases p.files@.len() - j,
    {
        let file = &p.files[j];
        let ghost prev = found_views(out@);
        let item = FoundAudio { playlist: p.name.clone(), path: file.path.clone(), size: file.size };
        assert(item@ == playlist_found(*p)[j as int]);
        out.push(item);
        assert(found_views(out@) =~= prev.push(item@));
        j = j + 1;
        assert(found_views(out@) =~= start + playlist_found(*p).take(j as int));
    }
    assert(playlist_found(*p).take(j as int) =~= playlist_found(*p));
}

/// The playlists of the files named `name`, in the order met.
pub open spec fn met_playlists(found: Seq<FoundView>, name: Seq<char>) -> Seq<Seq<char>>
    decreases found.len(),
{
    if found.len() == 0 {
        Seq::empty()
    } else if found_name(found.last()) == name {
        met_playlists(found.drop_last(), name).push(found.last().playlist)
    } else {
        met_playlists(found.drop_last(), name)
    }
}

/// The first file named `name` that was met, if any.
pub open spec fn first_met(found: Seq<FoundView>, name: Seq<char>) -> Option<FoundView>
    decreases found.len(),
{
    if found.len() == 0 {
        None
    } else {
        match first_met(found.drop_last(), name) {
            Some(f) => Some(f),
            None => if found_name(found.last()) == name {
                Some(found.last())
            } else {
                None
            },
        }
    }
}

pub proof fn lemma_unmet_has_no_playlists(found: Seq<FoundView>, name: Seq<char>)
    requires
        first_met(found, name) is None,
    ensures
        met_playlists(found, name) == Seq::<Seq<char>>::empty(),
    decreases found.len(),
{
    if found.len() > 0 {
        lemma_unmet_has_no_playlists(found.drop_last(), name);
    }
}

/// Files merge by name alone, first met first kept: the library holds one
/// entry for each file name met and no other; an entry's playlists are those
/// of every file of its name, in the order met (repeats kept); its path and
/// size are those of the first file of its name, whose content is the one
/// stored, whatever the others hold.
pub proof fn lemma_merge_by_file_name(found: Seq<FoundView>)
    ensures
        names_unique(merge_all(found)),
        forall|n: Seq<char>| #[trigger] has_name(merge_all(found), n) <==> first_met(found, n) is Some,
        forall|i: int|
            0 <= i < merge_all(found).len() ==> (#[trigger] merge_all(found)[i]).playlists
                == met_playlists(found, merge_all(found)[i].name),
        forall|i: int|
            0 <= i < merge_all(found).len() ==> (first_met(found, (#[trigger] merge_all(found)[i]).name) matches Some(f)
                && f.path == merge_all(found)[i].path && f.size == merge_all(found)[i].size),
    decreases found.len(),
{
    if found.len() > 0 {
        let init = found.drop_last();
        let last = found.last();
        let n = found_name(last);
        lemma_merge_by_file_name(init);
        let before = merge_all(init);
        let after = merge_all(found);
        assert(after == merge_one(before, n, last));
        lemma_merge_one_unique(before, n, last);
        if has_name(before, n) {
            let j = name_index(before, n);
            assert(first_met(init, n) is Some);
            assert forall|m: Seq<char>| #[trigger] has_name(after, m) <==> first_met(found, m) is Some by {
                if has_name(after, m) {
                    let k = choose|k: int| 0 <= k < after.len() && after[k].name == m;
                    assert(before[k].name == m);
                    assert(has_name(before, m));
                }
                if has_name(before, m) {
                    let k = choose|k: int| 0 <= k < before.len() && before[k].name == m;
                    assert(after[k].name == m);
                }
            }
            assert forall|i: int| 0 <= i < after.len() implies (#[trigger] after[i]).playlists
                == met_playlists(found, after[i].name) && (first_met(found, after[i].name) matches Some(f)
                && f.path == after[i].path && f.size == after[i].size) by {
                assert(before[i].playlists == met_playlists(init, before[i].name));
                assert(first_met(init, before[i].name) is Some);
                if i == j {
                    assert(after[i].playlists == before[i].playlists.push(last.playlist));
                } else {
                    assert(before[i].name != n);
                }
            }
        } else {
            assert(first_met(init, n) is None);
            lemma_unmet_has_no_playlists(init, n);
            assert forall|m: Seq<char>| #[trigger] has_name(after, m) <==> first_met(found, m) is Some by {
                if has_name(after, m) {
                    let k = choose|k: int| 0 <= k < after.len() && after[k].name == m;
                    if k < before.len() {
                        assert(before[k].name == m);
                        assert(has_name(before, m));
                    }
                }
                if has_name(before, m) {
                    let k = choose|k: int| 0 <= k < before.len() && before[k].name == m;
                    assert(after[k].name == m);
                }
                if m == n {
                    assert(after[before.len() as int].name == n);
                }
            }
            assert forall|i: int| 0 <= i < after.len() implies (#[trigger] after[i]).playlists
                == met_playlists(found, after[i].name) && (first_met(found, after[i].name) matches Some(f)
                && f.path == after[i].path && f.size == after[i].size) by {
                if i < before.len() {
                    assert(before[i].playlists == met_playlists(init, before[i].name));
                    assert(has_name(before, before[i].name));
                    assert(before[i].name != n);
                } else {
                    assert(met_playlists(found, n) =~= seq![last.playlist]);
                }
            }
        }
    } else {
        assert forall|m: Seq<char>| #[trigger] has_name(merge_all(found), m) <==> first_met(found, m) is Some by {}
    }
}

pub proof fn lemma_met_playlists_contains(found: Seq<FoundView>, name: Seq<char>, p: Seq<char>)
    ensures
        met_playlists(found, name).contains(p) <==> exists|k: int|
            0 <= k < found.len() && found_name(found[k]) == name && #[trigger] found[k].playlist == p,
    decreases found.len(),
{
    if found.len() > 0 {
        let init = found.drop_last();
        lemma_met_playlists_contains(init, name, p);
        if met_playlists(found, name).contains(p) {
            if !met_playlists(init, name).contains(p) {
                let last = found.len() - 1;
                assert(met_playlists(found, name) == met_playlists(init, name).push(found.last().playlist));
                let q = choose|q: int| 0 <= q < met_playlists(found, name).len() && met_playlists(found, name)[q] == p;
                assert(found[last].playlist == p);
            } else {
                let k = choose|k: int|
                    0 <= k < init.len() && found_name(init[k]) == name && #[trigger] init[k].playlist == p;
                assert(found[k] == init[k]);
            }
        }
        if exists|k: int| 0 <= k < found.len() && found_name(found[k]) == name && #[trigger] found[k].playlist == p {
            let k = choose|k: int|
                0 <= k < found.len() && found_name(found[k]) == name && #[trigger] found[k].playlist == p;
            if k < init.len() {
                assert(init[k] == found[k]);
                assert(met_playlists(init, name).contains(p));
                let q = choose|q: int| 0 <= q < met_playlists(init, name).len() && met_playlists(init, name)[q] == p;
                if found_name(found.last()) == name {
                    assert(met_playlists(found, name)[q] == p);
                }
            } else {
                assert(met_playlists(found, name).last() == p);
            }
        }
    }
}

} // verus!
