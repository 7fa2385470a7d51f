use vstd::prelude::*;
use super::{
    all_named, first_met, first_unnamed, found_name, found_views, has_name, lemma_merge_by_file_name,
    lemma_met_playlists_contains, met_playlists, merge_all, merge_found, playlist_found, push_playlist, root_name,
    root_playlist, FoundAudio, FoundView, ScannedFile, ScannedPlaylist,
};
use crate::compression::CompressionType;
use crate::error::PortableAudioLibraryError;
use crate::serialization::{audio_views, AudioMetadata, AudioView, Metadata};

verus! {

/// A child of the source directory: a file at the top level, or a
/// subdirectory, which is a playlist of the files in it.
pub enum TreeEntry {
    File(ScannedFile),
    Directory(ScannedPlaylist),
}

/// The files that one child of the source directory contributes.
pub open spec fn entry_found(e: TreeEntry) -> Seq<FoundView> {
    match e {
        TreeEntry::File(f) => seq![FoundView { playlist: root_playlist(), path: f.path@, size: f.size }],
        TreeEntry::Directory(p) => playlist_found(p),
    }
}

/// The files of a source directory, in the order met.
pub open spec fn tree_found(entries: Seq<TreeEntry>) -> Seq<FoundView>
    decreases entries.len(),
{
    if entries.len() == 0 {
        Seq::empty()
    } else {
        tree_found(entries.drop_last()) + entry_found(entries.last())
    }
}

/// The files of a source directory, each marked with its playlist.
fn collect_tree(entries: &Vec<TreeEntry>) -> (r: Vec<FoundAudio>)
    ensures
        found_views(r@) == tree_found(entries@),
{
    let mut found: Vec<FoundAudio> = Vec::new();
    let mut i: usize = 0;
    assert(entries@.take(0) =~= Seq::<TreeEntry>::empty());
    assert(found_views(found@) =~= Seq::<FoundView>::empty());
    while i < entries.len()
        invariant
            i <= entries@.len(),
            found_views(found@) == tree_found(entries@.take(i as int)),
        decreases entries@.len() - i,
    {
        proof {
            assert(entries@.take(i + 1).drop_last() =~= entries@.take(i as int));
        }
        match &entries[i] {
            TreeEntry::File(f) => {
                let ghost before = found_views(found@);
                let item = FoundAudio { playlist: root_name(), path: f.path.clone(), size: f.size };
                found.push(item);
                assert(found_views(found@) =~= before.push(item@));
                assert(found_views(found@) =~= before + entry_found(entries@[i as int]));
            },
            TreeEntry::Directory(p) => {
                push_playlist(&mut found, p);
            },
        }
        i = i + 1;
    }
    assert(entries@.take(i as int) =~= entries@);
    found
}

/// Builds a library from the children of a source directory, in the order
/// given: top-level files go to the playlist `root`, the files of a
/// subdirectory to the playlist named after it, and files merge by name.
pub fn build_metadata_from_directory(entries: &Vec<TreeEntry>) -> (r: Result<
    Metadata,
    PortableAudioLibraryError,
>)
    ensures
        match r {
            Ok(m) => all_named(tree_found(entries@)) && audio_views(m.audios@) == merge_all(
                tree_found(entries@),
            ) && m.name@ == Seq::<char>::empty() && m.compression_type
                == CompressionType::Uncompressed && m.wf(),
            Err(e) => !all_named(tree_found(entries@)) && (e matches PortableAudioLibraryError::MissingFileName { path }
                && path@ == tree_found(entries@)[first_unnamed(tree_found(entries@))].path),
        },
{
    let found = collect_tree(entries);
    let ghost fs = found_views(found@);
    let r = merge_found(&found);
    proof {
        if r is Err {
            let k = first_unnamed(fs);
            assert(fs[k].path == found@[k].path@);
        }
    }
    r
}

/// Where one copy of an entry goes: the top level of the destination, or
/// the subdirectory named after a playlist.
pub struct Placement {
    pub source: String,
    pub directory: Option<String>,
    pub name: String,
}

/// A placement as plain values.
pub struct PlacementView {
    pub source: Seq<char>,
    pub directory: Option<Seq<char>>,
    pub name: Seq<char>,
}

impl View for Placement {
    type V = PlacementView;

    open spec fn view(&self) -> PlacementView {
        PlacementView {
            source: self.source@,
            directory: match self.directory {
                Some(d) => Some(d@),
                None => None,
            },
            name: self.name@,
        }
    }
}

/// The views of the placements.
pub open spec fn placement_views(ps: Seq<Placement>) -> Seq<PlacementView> {
    ps.map_values(|p: Placement| p@)
}

/// The directory that a playlist's copies go to: the top level for `root`.
pub open spec fn playlist_directory(p: Seq<char>) -> Option<Seq<char>> {
    if p == root_playlist() {
        None
    } else {
        Some(p)
    }
}

/// One copy of the entry for each playlist that holds it, in its order.
pub open spec fn entry_placements(a: AudioView) -> Seq<PlacementView> {
    a.playlists.map_values(
        |p: Seq<char>| PlacementView { source: a.path, directory: playlist_directory(p), name: a.name },
    )
}

/// The copies of every entry, in entry order.
pub open spec fn placements_of(audios: Seq<AudioView>) -> Seq<PlacementView>
    decreases audios.len(),
{
    if audios.len() == 0 {
        Seq::empty()
    } else {
        placements_of(audios.drop_last()) + entry_placements(audios.last())
    }
}

/// Plans the copies that rebuild a directory tree from a library: each
/// entry is copied once per playlist that holds it, into the top level for
/// `root` and into the playlist's subdirectory otherwise.
pub fn build_directory_from_metadata(metadata: &Metadata) -> (r: Vec<Placement>)
    ensures
        placement_views(r@) == placements_of(audio_views(metadata.audios@)),
{
    let ghost audios = audio_views(metadata.audios@);
    let root = root_name();
    let mut out: Vec<Placement> = Vec::new();
    let mut i: usize = 0;
    assert(audios.take(0) =~= Seq::<AudioView>::empty());
    assert(placement_views(out@) =~= Seq::<PlacementView>::empty());
    while i < metadata.audios.len()
        invariant
            i <= metadata.audios@.len(),
            audios == audio_views(metadata.audios@),
            root@ == root_playlist(),
            placement_views(out@) == placements_of(audios.take(i as int)),
        decreases metadata.audios@.len() - i,
    {
        let audio: &AudioMetadata = &metadata.audios[i];
        let ghost before = placement_views(out@);
        let mut j: usize = 0;
        while j < audio.playlists.len()
            invariant
                j <= audio.playlists@.len(),
                i < metadata.audios@.len(),
                audios == audio_views(metadata.audios@),
                audio@ == audios[i as int],
                root@ == root_playlist(),
                placement_views(out@) == before + entry_placements(audio@).take(j as int),
            decreases audio.playlists@.len() - j,
        {
            let playlist = &audio.playlists[j];
            let directory = if *playlist == root {
                None
            } else {
                Some(playlist.clone())
            };
            let item = Placement { source: audio.path.clone(), directory, name: audio.name.clone() };
            assert(item@ == entry_placements(audio@)[j as int]);
            let ghost prev = placement_views(out@);
            out.push(item);
            assert(placement_views(out@) =~= prev.push(item@));
            j = j + 1;
            assert(placement_views(out@) =~= before + entry_placements(audio@).take(j as int));
        }
        assert(entry_placements(audio@).take(j as int) =~= entry_placements(audio@));
        assert(audios.take(i + 1).drop_last() =~= audios.take(i as int));
        i = i + 1;
    }
    assert(audios.take(i as int) =~= audios);
    out
}

/// The copy of entry `a` for its playlist `p`.
pub open spec fn placement_for(a: AudioView, p: Seq<char>) -> PlacementView {
    PlacementView { source: a.path, directory: playlist_directory(p), name: a.name }
}

pub proof fn lemma_placements_contains(audios: Seq<AudioView>, pv: PlacementView)
    ensures
        placements_of(audios).contains(pv) <==> exists|i: int, j: int|
            0 <= i < audios.len() && 0 <= j < audios[i].playlists.len() && pv == #[trigger] placement_for(
                audios[i],
                audios[i].playlists[j],
            ),
    decreases audios.len(),
{
    if audios.len() > 0 {
        let init = audios.drop_last();
        let a = audios.last();
        let last = audios.len() - 1;
        lemma_placements_contains(init, pv);
        let all = placements_of(audios);
        assert(all == placements_of(init) + entry_placements(a));
        if all.contains(pv) {
            let q = choose|q: int| 0 <= q < all.len() && all[q] == pv;
            if q < placements_of(init).len() {
                assert(placements_of(init)[q] == pv);
                assert(placements_of(init).contains(pv));
                let (i, j) = choose|i: int, j: int|
                    0 <= i < init.len() && 0 <= j < init[i].playlists.len() && pv == #[trigger] placement_for(
                        init[i],
                        init[i].playlists[j],
                    );
                assert(audios[i] == init[i]);
            } else {
                let j = q - placements_of(init).len();
                assert(entry_placements(a)[j] == pv);
                assert(pv == placement_for(audios[last], audios[last].playlists[j]));
            }
        }
        if exists|i: int, j: int|
            0 <= i < audios.len() && 0 <= j < audios[i].playlists.len() && pv == #[trigger] placement_for(
                audios[i],
                audios[i].playlists[j],
            ) {
            let (i, j) = choose|i: int, j: int|
                0 <= i < audios.len() && 0 <= j < audios[i].playlists.len() && pv == #[trigger] placement_for(
                    audios[i],
                    audios[i].playlists[j],
                );
            if i < last {
                assert(init[i] == audios[i]);
                assert(placements_of(init).contains(pv));
                let q = choose|q: int| 0 <= q < placements_of(init).len() && placements_of(init)[q] == pv;
                assert(all[q] == pv);
            } else {
                assert(entry_placements(a)[j] == pv);
                assert(all[placements_of(init).len() + j] == pv);
            }
        }
    }
}

/// Whether exporting should make the copy `pv` of the files met: a file
/// named `pv.name` was met in a playlist whose directory is `pv.directory`,
/// and `pv.source` is the path of the first file of that name.
pub open spec fn expected_copy(found: Seq<FoundView>, pv: PlacementView) -> bool {
    &&& exists|k: int|
        0 <= k < found.len() && found_name(found[k]) == pv.name && #[trigger] playlist_directory(
            found[k].playlist,
        ) == pv.directory
    &&& first_met(found, pv.name) matches Some(f) && f.path == pv.source
}

/// Exporting a tree that was imported gives the tree back: the copies made
/// are exactly one per file met, under its name, at the top level for files
/// met there and in the subdirectory of its playlist otherwise; each copy of
/// a name is taken from the first file of that name.
pub proof fn lemma_directory_round_trip(entries: Seq<TreeEntry>)
    ensures
        forall|pv: PlacementView|
            #[trigger] placements_of(merge_all(tree_found(entries))).contains(pv) <==> expected_copy(
                tree_found(entries),
                pv,
            ),
{
    let found = tree_found(entries);
    let merged = merge_all(found);
    lemma_merge_by_file_name(found);
    assert forall|pv: PlacementView| #[trigger] placements_of(merged).contains(pv) <==> expected_copy(found, pv) by {
        lemma_placements_contains(merged, pv);
        if placements_of(merged).contains(pv) {
            let (i, j) = choose|i: int, j: int|
                0 <= i < merged.len() && 0 <= j < merged[i].playlists.len() && pv == #[trigger] placement_for(
                    merged[i],
                    merged[i].playlists[j],
                );
            let a = merged[i];
            let p = a.playlists[j];
            assert(a.playlists == met_playlists(found, a.name));
            lemma_met_playlists_contains(found, a.name, p);
            assert(met_playlists(found, a.name).contains(p));
            let k = choose|k: int| 0 <= k < found.len() && found_name(found[k]) == a.name && #[trigger] found[k].playlist == p;
            assert(playlist_directory(found[k].playlist) == pv.directory);
        }
        if expected_copy(found, pv) {
            let k = choose|k: int|
                0 <= k < found.len() && found_name(found[k]) == pv.name && #[trigger] playlist_directory(
                    found[k].playlist,
                ) == pv.directory;
            let n = pv.name;
            assert(has_name(merged, n));
            let i = choose|i: int| 0 <= i < merged.len() && merged[i].name == n;
            let a = merged[i];
            lemma_met_playlists_contains(found, n, found[k].playlist);
            assert(a.playlists == met_playlists(found, n));
            let j = choose|j: int| 0 <= j < a.playlists.len() && a.playlists[j] == found[k].playlist;
            assert(pv == placement_for(merged[i], merged[i].playlists[j]));
        }
    }
}

} // verus!
