use vstd::prelude::*;
use vstd::string::*;
use super::{
    all_named, first_unnamed, found_views, merge_all, merge_found, playlist_found, push_playlist,
    FoundAudio, FoundView, ScannedPlaylist,
};
use crate::compression::CompressionType;
use crate::error::PortableAudioLibraryError;
use crate::serialization::{audio_views, AudioView, Metadata};

verus! {

/// The extension that marks a playlist-list file.
pub open spec fn m3u_extension() -> Seq<char> {
    seq!['.', 'm', '3', 'u']
}

/// Whether `name` is the file name of a playlist-list file: a non-empty stem
/// followed by the extension.
pub open spec fn is_playlist_file(name: Seq<char>) -> bool {
    name.len() > m3u_extension().len() && name.subrange(
        name.len() - m3u_extension().len(),
        name.len() as int,
    ) == m3u_extension()
}

/// The name of the playlist that the list file `file_name` holds, or `None`
/// where `file_name` is not that of a list file.
pub fn playlist_name_of(file_name: &str) -> (r: Option<String>)
    ensures
        match r {
            Some(p) => is_playlist_file(file_name@) && file_name@ == p@ + m3u_extension(),
            None => !is_playlist_file(file_name@),
        },
{
    let n = file_name.unicode_len();
    if n <= 4 {
        return None;
    }
    let a = file_name.get_char(n - 4);
    let b = file_name.get_char(n - 3);
    let c = file_name.get_char(n - 2);
    let d = file_name.get_char(n - 1);
    let ghost tail = file_name@.subrange(n - 4, n as int);
    if a == '.' && b == 'm' && c == '3' && d == 'u' {
        let stem = file_name.substring_char(0, n - 4);
        assert(tail =~= m3u_extension());
        assert(file_name@ =~= stem@ + m3u_extension());
        Some(String::from_str(stem))
    } else {
        proof {
            if tail == m3u_extension() {
                assert(tail[0] == a);
                assert(tail[1] == b);
                assert(tail[2] == c);
                assert(tail[3] == d);
            }
        }
        None
    }
}

/// The file name of the list file of `playlist`.
pub fn playlist_file_name(playlist: &str) -> (r: String)
    ensures
        r@ == playlist@ + m3u_extension(),
{
    let mut r = String::from_str(playlist);
    r.append(".m3u");
    proof {
        reveal_strlit(".m3u");
        assert(".m3u"@ =~= m3u_extension());
    }
    r
}

/// The list file of a non-empty playlist name is recognised, and gives that name back.
pub proof fn lemma_playlist_file_name_round_trip(playlist: Seq<char>)
    requires
        playlist.len() > 0,
    ensures
        is_playlist_file(playlist + m3u_extension()),
        (playlist + m3u_extension()).subrange(0, playlist.len() as int) == playlist,
{
    let name = playlist + m3u_extension();
    assert(name.subrange(name.len() - 4, name.len() as int) =~= m3u_extension());
    assert(name.subrange(0, playlist.len() as int) =~= playlist);
}

/// The lines joined back with newlines.
pub open spec fn join_lines(lines: Seq<Seq<char>>) -> Seq<char>
    decreases lines.len(),
{
    if lines.len() == 0 {
        Seq::empty()
    } else if lines.len() == 1 {
        lines[0]
    } else {
        join_lines(lines.drop_last()) + seq!['\n'] + lines.last()
    }
}

/// The views of a sequence of strings.
pub open spec fn string_views(v: Seq<String>) -> Seq<Seq<char>> {
    v.map_values(|s: String| s@)
}

/// Splits the content of a list file at each newline. Every piece is a
/// path, the last one included, so content that ends in a newline yields
/// an empty last line.
pub fn playlist_lines(content: &str) -> (r: Vec<String>)
    ensures
        r@.len() >= 1,
        join_lines(string_views(r@)) == content@,
        forall|i: int| 0 <= i < r@.len() ==> !(#[trigger] r@[i])@.contains('\n'),
{
    let n = content.unicode_len();
    let mut lines: Vec<String> = Vec::new();
    let mut start: usize = 0;
    let mut i: usize = 0;
    while i < n
        invariant
            n == content@.len(),
            start <= i <= n,
            lines@.len() == 0 ==> start == 0,
            lines@.len() > 0 ==> content@.subrange(0, start as int) == join_lines(
                string_views(lines@),
            ) + seq!['\n'],
            forall|k: int| 0 <= k < lines@.len() ==> !(#[trigger] lines@[k])@.contains('\n'),
            forall|k: int| start <= k < i ==> content@[k] != '\n',
        decreases n - i,
    {
        if content.get_char(i) == '\n' {
            let part = String::from_str(content.substring_char(start, i));
            let ghost before = string_views(lines@);
            proof {
                if part@.contains('\n') {
                    let k = choose|k: int| 0 <= k < part@.len() && part@[k] == '\n';
                    assert(content@[start + k] == '\n');
                }
            }
            lines.push(part);
            proof {
                let after = string_views(lines@);
                assert(after =~= before.push(part@));
                assert(after.drop_last() =~= before);
                if before.len() == 0 {
                    assert(join_lines(after) == part@);
                    assert(content@.subrange(0, i + 1) =~= part@ + seq!['\n']);
                } else {
                    assert(content@.subrange(0, i + 1) =~= content@.subrange(0, start as int)
                        + part@ + seq!['\n']);
                }
            }
            start = i + 1;
        }
        i = i + 1;
    }
    let last = String::from_str(content.substring_char(start, n));
    let ghost before = string_views(lines@);
    proof {
        if last@.contains('\n') {
            let k = choose|k: int| 0 <= k < last@.len() && last@[k] == '\n';
            assert(content@[start + k] == '\n');
        }
    }
    lines.push(last);
    proof {
        let after = string_views(lines@);
        assert(after =~= before.push(last@));
        assert(after.drop_last() =~= before);
        if before.len() == 0 {
            assert(content@ =~= last@);
        } else {
            assert(content@ =~= content@.subrange(0, start as int) + last@);
        }
    }
    lines
}

/// The files met in the list files, in order.
pub open spec fn playlists_found(playlists: Seq<ScannedPlaylist>) -> Seq<FoundView>
    decreases playlists.len(),
{
    if playlists.len() == 0 {
        Seq::empty()
    } else {
        playlists_found(playlists.drop_last()) + playlist_found(playlists.last())
    }
}

/// The files met in the list files, each marked with its playlist.
fn collect_playlists(playlists: &Vec<ScannedPlaylist>) -> (r: Vec<FoundAudio>)
    ensures
        found_views(r@) == playlists_found(playlists@),
{
    let mut found: Vec<FoundAudio> = Vec::new();
    let mut i: usize = 0;
    assert(playlists@.take(0) =~= Seq::<ScannedPlaylist>::empty());
    assert(found_views(found@) =~= Seq::<FoundView>::empty());
    while i < playlists.len()
        invariant
            i <= playlists@.len(),
            found_views(found@) == playlists_found(playlists@.take(i as int)),
        decreases playlists@.len() - i,
    {
        proof {
            assert(playlists@.take(i + 1).drop_last() =~= playlists@.take(i as int));
        }
        push_playlist(&mut found, &playlists[i]);
        i = i + 1;
    }
    assert(playlists@.take(i as int) =~= playlists@);
    found
}

/// Builds a library from list files: each path that a list names joins the
/// playlist of that list, and files merge by name as for a directory tree.
pub fn build_metadata_from_m3u(playlists: &Vec<ScannedPlaylist>) -> (r: Result<
    Metadata,
    PortableAudioLibraryError,
>)
    ensures
        match r {
            Ok(m) => all_named(playlists_found(playlists@)) && audio_views(m.audios@) == merge_all(
                playlists_found(playlists@),
            ) && m.name@ == Seq::<char>::empty() && m.compression_type
                == CompressionType::Uncompressed && m.wf(),
            Err(e) => !all_named(playlists_found(playlists@)) && (e matches PortableAudioLibraryError::MissingFileName { path }
                && path@ == playlists_found(playlists@)[first_unnamed(playlists_found(playlists@))].path),
        },
{
    let found = collect_playlists(playlists);
    let ghost fs = found_views(found@);
    let r = merge_found(&found);
    proof {
        if r is Err {
            let k = first_unnamed(fs);
            assert(fs[k].path == found@[k].path@);
        }
    }
    r
}

/// A list file to write: the playlist it holds and its content.
pub struct M3uFile {
    pub playlist: String,
    pub content: String,
}

/// A list file as plain values.
pub struct M3uView {
    pub playlist: Seq<char>,
    pub content: Seq<char>,
}

impl View for M3uFile {
    type V = M3uView;

    open spec fn view(&self) -> M3uView {
        M3uView { playlist: self.playlist@, content: self.content@ }
    }
}

/// The views of the list files.
pub open spec fn m3u_views(files: Seq<M3uFile>) -> Seq<M3uView> {
    files.map_values(|f: M3uFile| f@)
}

/// Every pair of an entry's playlist and the path the entry was copied to,
/// in entry order and, within an entry, in playlist order.
pub open spec fn playlist_edges(audios: Seq<AudioView>, destinations: Seq<Seq<char>>) -> Seq<
    (Seq<char>, Seq<char>),
>
    decreases audios.len(),
{
    if audios.len() == 0 {
        Seq::empty()
    } else {
        playlist_edges(audios.drop_last(), destinations) + audios.last().playlists.map_values(
            |p: Seq<char>| (p, destinations[audios.len() - 1]),
        )
    }
}

/// Whether a list file for playlist `p` is among `files`.
pub open spec fn has_playlist(files: Seq<M3uView>, p: Seq<char>) -> bool {
    exists|k: int| 0 <= k < files.len() && files[k].playlist == p
}

/// No two list files hold the same playlist.
pub open spec fn playlists_unique(files: Seq<M3uView>) -> bool {
    forall|i: int, j: int|
        0 <= i < files.len() && 0 <= j < files.len() && i != j ==> files[i].playlist != files[j].playlist
}

/// Adds the line `d` to the list file of playlist `p`, or starts that file.
pub open spec fn add_line(files: Seq<M3uView>, p: Seq<char>, d: Seq<char>) -> Seq<M3uView> {
    if has_playlist(files, p) {
        let k = choose|k: int| 0 <= k < files.len() && files[k].playlist == p;
        files.update(k, M3uView { playlist: p, content: files[k].content + seq!['\n'] + d })
    } else {
        files.push(M3uView { playlist: p, content: d })
    }
}

/// The list files that adding every pair in order gives.
pub open spec fn add_all_lines(edges: Seq<(Seq<char>, Seq<char>)>) -> Seq<M3uView>
    decreases edges.len(),
{
    if edges.len() == 0 {
        Seq::empty()
    } else {
        add_line(add_all_lines(edges.drop_last()), edges.last().0, edges.last().1)
    }
}

fn add_playlist_line(files: &mut Vec<M3uFile>, p: &String, d: &String)
    requires
        playlists_unique(m3u_views(old(files)@)),
    ensures
        m3u_views(final(files)@) == add_line(m3u_views(old(files)@), p@, d@),
        playlists_unique(m3u_views(final(files)@)),
{
    let ghost views = m3u_views(files@);
    let mut k: usize = 0;
    while k < files.len()
        invariant
            k <= files@.len(),
            files@ == old(files)@,
            views == m3u_views(files@),
            playlists_unique(views),
            forall|j: int| 0 <= j < k ==> (#[trigger] views[j]).playlist != p@,
        decreases files@.len() - k,
    {
        if files[k].playlist == *p {
            proof {
                assert(views[k as int].playlist == p@);
                assert(has_playlist(views, p@));
                let c = choose|c: int| 0 <= c < views.len() && views[c].playlist == p@;
                assert(c == k);
                reveal_strlit("\n");
            }
            let ghost c0 = files@[k as int].content@;
            files[k].content.append("\n");
            files[k].content.append(d.as_str());
            proof {
                assert("\n"@ =~= seq!['\n']);
                assert(files@[k as int].content@ =~= c0 + seq!['\n'] + d@);
                let after = m3u_views(files@);
                assert(after[k as int] == M3uView { playlist: p@, content: c0 + seq!['\n'] + d@ });
                assert(after =~= add_line(views, p@, d@));
            }
            return;
        }
        k = k + 1;
    }
    assert(!has_playlist(views, p@));
    files.push(M3uFile { playlist: p.clone(), content: d.clone() });
    assert(m3u_views(files@) =~= add_line(views, p@, d@));
}

/// Plans the list files that go beside the flat copies of the entries:
/// `destinations[i]` is where entry `i` was copied, and each playlist gets
/// one file listing, line by line, the copies of the entries it holds, in
/// entry order; a playlist that an entry lists twice lists its copy twice.
pub fn build_m3u_from_metadata(metadata: &Metadata, destinations: &Vec<String>) -> (r: Vec<M3uFile>)
    requires
        destinations@.len() == metadata.audios@.len(),
    ensures
        m3u_views(r@) == add_all_lines(
            playlist_edges(audio_views(metadata.audios@), string_views(destinations@)),
        ),
{
    let ghost audios = audio_views(metadata.audios@);
    let ghost dests = string_views(destinations@);
    let mut files: Vec<M3uFile> = Vec::new();
    let mut i: usize = 0;
    assert(audios.take(0) =~= Seq::<AudioView>::empty());
    assert(m3u_views(files@) =~= Seq::<M3uView>::empty());
    while i < metadata.audios.len()
        invariant
            i <= metadata.audios@.len(),
            destinations@.len() == metadata.audios@.len(),
            audios == audio_views(metadata.audios@),
            dests == string_views(destinations@),
            playlists_unique(m3u_views(files@)),
            m3u_views(files@) == add_all_lines(playlist_edges(audios.take(i as int), dests)),
        decreases metadata.audios@.len() - i,
    {
        let audio = &metadata.audios[i];
        let ghost done = playlist_edges(audios.take(i as int), dests);
        let ghost mine = audio@.playlists.map_values(|p: Seq<char>| (p, dests[i as int]));
        proof {
            assert(audios.take(i + 1).drop_last() =~= audios.take(i as int));
            assert(audios.take(i + 1).last() == audio@);
        }
        let mut j: usize = 0;
        while j < audio.playlists.len()
            invariant
                j <= audio.playlists@.len(),
                i < metadata.audios@.len(),
                destinations@.len() == metadata.audios@.len(),
                dests == string_views(destinations@),
                audio@ == audios[i as int],
                mine == audio@.playlists.map_values(|p: Seq<char>| (p, dests[i as int])),
                playlists_unique(m3u_views(files@)),
                m3u_views(files@) == add_all_lines(done + mine.take(j as int)),
            decreases audio.playlists@.len() - j,
        {
            proof {
                assert((done + mine.take(j + 1)).drop_last() =~= done + mine.take(j as int));
            }
            add_playlist_line(&mut files, &audio.playlists[j], &destinations[i]);
            j = j + 1;
        }
        assert(mine.take(j as int) =~= mine);
        i = i + 1;
    }
    assert(audios.take(i as int) =~= audios);
    files
}

} // verus!
