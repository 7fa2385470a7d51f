use vstd::prelude::*;
use crate::compression::{
    get_compression, lemma_backend_fidelity, Backend, Compression, CompressionType,
};
use crate::container::{
    be_value, concat_all, is_container_of, lemma_concat_take_step, lemma_payload_location, prefix_len,
    HEADER_SIZE,
};
use crate::error::PortableAudioLibraryError;

verus! {

/// Playlist name.
pub type Playlist = String;

/// Metadata of audio library.
#[derive(Debug, Clone, PartialEq)]
pub struct Metadata {
    pub name: String,
    pub compression_type: CompressionType,
    pub audios: Vec<AudioMetadata>,
}

/// Metadata of audio.
#[derive(Debug, Clone, PartialEq)]
pub struct AudioMetadata {
    /// File name: the key by which entries merge, and the name on export.
    pub name: String,
    /// Before a write, the size of the source; after it, and after a read, the
    /// number of compressed bytes that the entry's payload takes.
    pub size: u64,
    /// The playlists that hold the entry, in the order they were met.
    pub playlists: Vec<Playlist>,
    /// Where the entry's bytes are; not stored in a container.
    pub path: String,
}

impl Default for Metadata {
    fn default() -> (r: Metadata)
        ensures
            r.name@ == Seq::<char>::empty(),
            r.compression_type == CompressionType::Uncompressed,
            r.audios@.len() == 0,
    {
        Metadata {
            name: String::new(),
            compression_type: CompressionType::Uncompressed,
            audios: Vec::new(),
        }
    }
}

/// What an entry holds, as plain values.
pub struct AudioView {
    pub name: Seq<char>,
    pub size: u64,
    pub playlists: Seq<Seq<char>>,
    pub path: Seq<char>,
}

impl View for AudioMetadata {
    type V = AudioView;

    open spec fn view(&self) -> AudioView {
        AudioView {
            name: self.name@,
            size: self.size,
            playlists: self.playlists@.map_values(|p: Playlist| p@),
            path: self.path@,
        }
    }
}

/// The views of a sequence of entries.
pub open spec fn audio_views(audios: Seq<AudioMetadata>) -> Seq<AudioView> {
    audios.map_values(|a: AudioMetadata| a@)
}

/// No two entries share a name.
pub open spec fn names_unique(audios: Seq<AudioView>) -> bool {
    forall|i: int, j: int|
        0 <= i < audios.len() && 0 <= j < audios.len() && i != j ==> audios[i].name != audios[j].name
}

/// `a` is `b` with, at most, another size.
pub open spec fn same_but_size(a: AudioMetadata, b: AudioMetadata) -> bool {
    a.name == b.name && a.playlists == b.playlists && a.path == b.path
}

/// The number of payload bytes that the entries before `i` take.
pub open spec fn stored_before(audios: Seq<AudioMetadata>, i: int) -> int
    decreases i,
{
    if i <= 0 {
        0
    } else {
        stored_before(audios, i - 1) + audios[i - 1].size
    }
}

/// Where the payload of entry `i` starts, given where the first one starts.
pub open spec fn payload_start(audios: Seq<AudioMetadata>, start: int, i: int) -> int {
    start + stored_before(audios, i)
}

/// The container holds every byte that entry `i` declares.
pub open spec fn payload_fits(audios: Seq<AudioMetadata>, c: Seq<u8>, start: int, i: int) -> bool {
    payload_start(audios, start, i) + audios[i].size <= c.len()
}

/// The bytes of entry `i`'s payload.
pub open spec fn payload_of(audios: Seq<AudioMetadata>, c: Seq<u8>, start: int, i: int) -> Seq<u8> {
    c.subrange(payload_start(audios, start, i), payload_start(audios, start, i) + audios[i].size)
}

/// Entry `i`'s payload is present and decodes with `backend`.
pub open spec fn payload_readable(
    backend: Backend,
    audios: Seq<AudioMetadata>,
    c: Seq<u8>,
    start: int,
    i: int,
) -> bool {
    payload_fits(audios, c, start, i) && backend.decoded(payload_of(audios, c, start, i)) is Some
}

impl Metadata {
    /// Every entry has a name of its own.
    pub open spec fn wf(&self) -> bool {
        names_unique(audio_views(self.audios@))
    }

    /// Compresses the bytes of each entry (`sources[i]` for entry `i`) with
    /// the backend that the descriptor selects, and records in each entry the
    /// compressed length. Returns the compressed payloads in entry order.
    pub fn compress_audios(&mut self, sources: &Vec<Vec<u8>>) -> (r: Result<Vec<Vec<u8>>, PortableAudioLibraryError>)
        requires
            sources@.len() == old(self).audios@.len(),
        ensures
            final(self).name == old(self).name,
            final(self).compression_type == old(self).compression_type,
            final(self).audios@.len() == old(self).audios@.len(),
            forall|i: int|
                0 <= i < old(self).audios@.len() ==> same_but_size(
                    #[trigger] final(self).audios@[i],
                    old(self).audios@[i],
                ),
            match r {
                Ok(ps) => ps@.len() == sources@.len() && forall|i: int|
                    0 <= i < ps@.len() ==> old(self).compression_type.backend().encodes(
                        sources@[i]@,
                        (#[trigger] ps@[i])@,
                    ) && old(self).compression_type.backend().decoded(ps@[i]@) == Some(sources@[i]@)
                        && final(self).audios@[i].size == ps@[i]@.len(),
                Err(e) => e == PortableAudioLibraryError::Compression && !old(
                    self,
                ).compression_type.backend().accepts() && sources@.len() > 0,
            },
            old(self).compression_type.backend().accepts() || sources@.len() == 0 <==> r is Ok,
    {
        let backend = get_compression(&self.compression_type);
        let mut out: Vec<Vec<u8>> = Vec::new();
        let mut i: usize = 0;
        while i < sources.len()
            invariant
                i <= sources@.len(),
                sources@.len() == old(self).audios@.len(),
                backend == old(self).compression_type.backend(),
                self.name == old(self).name,
                self.compression_type == old(self).compression_type,
                self.audios@.len() == old(self).audios@.len(),
                forall|k: int|
                    0 <= k < old(self).audios@.len() ==> same_but_size(
                        #[trigger] self.audios@[k],
                        old(self).audios@[k],
                    ),
                out@.len() == i,
                i > 0 ==> backend.accepts(),
                forall|k: int|
                    0 <= k < i ==> backend.encodes(sources@[k]@, (#[trigger] out@[k])@)
                        && backend.decoded(out@[k]@) == Some(sources@[k]@)
                        && self.audios@[k].size == out@[k]@.len(),
            decreases sources@.len() - i,
        {
            let c = backend.compress(sources[i].as_slice())?;
            self.audios[i].size = c.len() as u64;
            out.push(c);
            i = i + 1;
        }
        Ok(out)
    }

    /// Locates and decompresses every entry's payload. The payloads start at
    /// `start` in `container` and follow each other in entry order, each
    /// exactly as long as its entry's `size`. Fails at the first entry whose
    /// payload the container does not hold in full, or that does not decode
    /// with the backend that the descriptor selects.
    pub fn decompress_audios(&self, container: &[u8], start: usize) -> (r: Result<
        Vec<Vec<u8>>,
        PortableAudioLibraryError,
    >)
        requires
            start <= container@.len(),
        ensures
            match r {
                Ok(outs) => outs@.len() == self.audios@.len() && forall|i: int|
                    0 <= i < outs@.len() ==> payload_fits(self.audios@, container@, start as int, i)
                        && self.compression_type.backend().decoded(
                        payload_of(self.audios@, container@, start as int, i),
                    ) == Some((#[trigger] outs@[i])@),
                Err(PortableAudioLibraryError::PayloadTruncated { index }) => index
                    < self.audios@.len() && (forall|k: int|
                    0 <= k < index ==> payload_readable(
                        self.compression_type.backend(),
                        self.audios@,
                        container@,
                        start as int,
                        k,
                    )) && !payload_fits(self.audios@, container@, start as int, index as int),
                Err(PortableAudioLibraryError::Decompression { index }) => index
                    < self.audios@.len() && (forall|k: int|
                    0 <= k < index ==> payload_readable(
                        self.compression_type.backend(),
                        self.audios@,
                        container@,
                        start as int,
                        k,
                    )) && payload_fits(self.audios@, container@, start as int, index as int)
                    && self.compression_type.backend().decoded(
                    payload_of(self.audios@, container@, start as int, index as int),
                ) is None,
                Err(_) => false,
            },
    {
        let backend = get_compression(&self.compression_type);
        let mut outs: Vec<Vec<u8>> = Vec::new();
        let mut offset: usize = start;
        let mut i: usize = 0;
        while i < self.audios.len()
            invariant
                i <= self.audios@.len(),
                backend == self.compression_type.backend(),
                start <= offset <= container@.len(),
                offset == payload_start(self.audios@, start as int, i as int),
                outs@.len() == i,
                forall|k: int|
                    0 <= k < i ==> #[trigger] payload_fits(self.audios@, container@, start as int, k),
                forall|k: int|
                    0 <= k < i ==> backend.decoded(payload_of(self.audios@, container@, start as int, k))
                        == Some((#[trigger] outs@[k])@),
            decreases self.audios@.len() - i,
        {
            proof {
                assert forall|k: int| 0 <= k < i implies payload_readable(
                    backend,
                    self.audios@,
                    container@,
                    start as int,
                    k,
                ) by {
                    assert(backend.decoded(payload_of(self.audios@, container@, start as int, k))
                        == Some(outs@[k]@));
                }
            }
            let size = self.audios[i].size;
            if size > (container.len() - offset) as u64 {
                return Err(PortableAudioLibraryError::PayloadTruncated { index: i });
            }
            let end: usize = offset + size as usize;
            let payload = &container[offset..end];
            assert(payload@ == payload_of(self.audios@, container@, start as int, i as int));
            match backend.decompress(payload) {
                Some(v) => {
                    let ghost before = outs@;
                    outs.push(v);
                    proof {
                        assert forall|k: int| 0 <= k < i + 1 implies payload_fits(
                            self.audios@,
                            container@,
                            start as int,
                            k,
                        ) && backend.decoded(payload_of(self.audios@, container@, start as int, k))
                            == Some((#[trigger] outs@[k])@) by {
                            if k < i {
                                assert(outs@[k] == before[k]);
                            }
                        }
                    }
                },
                None => {
                    return Err(PortableAudioLibraryError::Decompression { index: i });
                },
            }
            assert(stored_before(self.audios@, i + 1) == stored_before(self.audios@, i as int)
                + self.audios@[i as int].size);
            offset = end;
            i = i + 1;
        }
        Ok(outs)
    }
}

/// Where the payloads of a container with metadata section `metadata` start.
pub open spec fn payloads_start(metadata: Seq<u8>) -> int {
    HEADER_SIZE + metadata.len()
}

/// The payload bytes of the entries before `i` are the bytes of the payloads
/// before `i`, where each entry's size is its payload's length.
pub proof fn lemma_stored_before_prefix(audios: Seq<AudioMetadata>, payloads: Seq<Seq<u8>>, i: int)
    requires
        audios.len() == payloads.len(),
        forall|k: int| 0 <= k < audios.len() ==> #[trigger] audios[k].size == payloads[k].len(),
        0 <= i <= audios.len(),
    ensures
        stored_before(audios, i) == prefix_len(payloads, i),
    decreases i,
{
    if i == 0 {
        assert(payloads.take(0) =~= Seq::<Seq<u8>>::empty());
    } else {
        lemma_stored_before_prefix(audios, payloads, i - 1);
        lemma_concat_take_step(payloads, i - 1);
    }
}

/// Reading a written container finds what was written: the header gives the
/// metadata length `L`, the metadata follows it, and entry `i`'s payload
/// starts `HEADER_SIZE + L` plus the sizes of the entries before it bytes in,
/// spans exactly the entry's size, and is the payload written for it.
pub proof fn lemma_written_container_layout(
    c: Seq<u8>,
    metadata: Seq<u8>,
    payloads: Seq<Seq<u8>>,
    audios: Seq<AudioMetadata>,
)
    requires
        is_container_of(c, metadata, payloads),
        audios.len() == payloads.len(),
        forall|k: int| 0 <= k < audios.len() ==> #[trigger] audios[k].size == payloads[k].len(),
    ensures
        be_value(c.subrange(0, HEADER_SIZE as int)) == metadata.len(),
        c.subrange(HEADER_SIZE as int, payloads_start(metadata)) == metadata,
        forall|i: int|
            0 <= i < audios.len() ==> #[trigger] payload_start(audios, payloads_start(metadata), i)
                == payloads_start(metadata) + stored_before(audios, i),
        forall|i: int|
            0 <= i < audios.len() ==> #[trigger] payload_fits(audios, c, payloads_start(metadata), i),
        forall|i: int|
            0 <= i < audios.len() ==> #[trigger] payload_of(audios, c, payloads_start(metadata), i)
                == payloads[i],
{
    let base = payloads_start(metadata);
    assert(base == HEADER_SIZE + metadata.len());
    let body = c.subrange(HEADER_SIZE as int, c.len() as int);
    let all = concat_all(payloads);
    assert(body == metadata + all);
    assert(c.len() == base + all.len());
    assert(c.subrange(HEADER_SIZE as int, base) =~= body.subrange(0, metadata.len() as int));
    assert forall|i: int| 0 <= i < audios.len() implies #[trigger] payload_fits(
        audios,
        c,
        payloads_start(metadata),
        i,
    ) && payload_of(audios, c, payloads_start(metadata), i) == payloads[i] by {
        lemma_stored_before_prefix(audios, payloads, i);
        lemma_payload_location(payloads, i);
        let p = prefix_len(payloads, i);
        let n = payloads[i].len() as int;
        assert(audios[i].size == n);
        assert(stored_before(audios, i) == p);
        assert forall|j: int| 0 <= j < n implies #[trigger] c[base + p + j] == all[p + j] by {
            assert(body[metadata.len() + p + j] == c[base + p + j]);
            assert((metadata + all)[metadata.len() + p + j] == all[p + j]);
        }
        let po = payload_of(audios, c, base, i);
        assert(payload_start(audios, base, i) == base + p);
        assert(po == c.subrange(base + p, base + p + n));
        assert(p + n <= all.len());
        assert forall|j: int| 0 <= j < n implies po[j] == all.subrange(p, p + n)[j] by {
            assert(po[j] == c[base + p + j]);
            assert(c[base + p + j] == all[p + j]);
        }
        assert(po =~= all.subrange(p, p + n));
    }
    assert forall|i: int| 0 <= i < audios.len() implies #[trigger] payload_of(
        audios,
        c,
        payloads_start(metadata),
        i,
    ) == payloads[i] by {
        assert(payload_fits(audios, c, payloads_start(metadata), i));
    }
}

/// Nothing is lost between writing and reading: where payload `i` is what
/// the backend made of `sources[i]` (as `compress_audios` returns them),
/// reading the container finds every payload in full and decodes entry `i`
/// back to `sources[i]`, for every backend.
pub proof fn lemma_container_round_trip(
    compression_type: CompressionType,
    c: Seq<u8>,
    metadata: Seq<u8>,
    sources: Seq<Seq<u8>>,
    payloads: Seq<Seq<u8>>,
    audios: Seq<AudioMetadata>,
)
    requires
        is_container_of(c, metadata, payloads),
        audios.len() == payloads.len(),
        sources.len() == payloads.len(),
        forall|k: int| 0 <= k < audios.len() ==> #[trigger] audios[k].size == payloads[k].len(),
        forall|k: int|
            0 <= k < sources.len() ==> compression_type.backend().encodes(sources[k], #[trigger] payloads[k]),
    ensures
        forall|i: int|
            0 <= i < audios.len() ==> #[trigger] payload_fits(audios, c, payloads_start(metadata), i),
        forall|i: int|
            0 <= i < audios.len() ==> compression_type.backend().decoded(
                #[trigger] payload_of(audios, c, payloads_start(metadata), i),
            ) == Some(sources[i]),
{
    lemma_written_container_layout(c, metadata, payloads, audios);
    assert forall|i: int| 0 <= i < audios.len() implies compression_type.backend().decoded(
        #[trigger] payload_of(audios, c, payloads_start(metadata), i),
    ) == Some(sources[i]) by {
        assert(compression_type.backend().encodes(sources[i], payloads[i]));
        lemma_backend_fidelity(compression_type, sources[i], payloads[i]);
    }
}

} // verus!
