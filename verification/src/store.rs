//! Content-addressed image store with per-conversation references.
//!
//! Images are deduplicated by the SHA-256 digest of their bytes: the digest
//! is the sole deduplication key, and a digest occurs on at most one stored
//! row. Conversations hold at most one reference to a given image; deleting
//! a conversation's references never touches another conversation, and the
//! orphan reaper deletes exactly the images with no remaining reference.

use crate::hash::{sha256_hex, sha256_hex_of};
use vstd::prelude::*;

verus! {

/// A stored attachment: unique by `hash`, never mutated after creation.
#[derive(Debug)]
pub struct StoredImage {
    pub id: i64,
    pub hash: String,
    pub data: Vec<u8>,
    pub mime_type: String,
    pub size: i64,
    pub created_at: String,
}

/// One conversation's link to one stored image; the pair
/// `(image_id, conversation_id)` is unique.
#[derive(Debug)]
pub struct ImageReference {
    pub id: i64,
    pub image_id: i64,
    pub conversation_id: String,
    pub created_at: String,
}

/// Image metadata without the bytes, as the command surface reports it.
#[derive(Debug)]
pub struct ImageMetadata {
    pub id: i64,
    pub hash: String,
    pub mime_type: String,
    pub size: i64,
    pub created_at: String,
}

/// Mathematical image of a [`StoredImage`].
pub struct ImageRec {
    pub id: int,
    pub hash: Seq<char>,
    pub data: Seq<u8>,
    pub mime_type: Seq<char>,
    pub size: int,
    pub created_at: Seq<char>,
}

/// Mathematical image of an [`ImageReference`].
pub struct RefRec {
    pub id: int,
    pub image_id: int,
    pub conversation_id: Seq<char>,
    pub created_at: Seq<char>,
}

/// Mathematical image of an [`ImageMetadata`].
pub struct MetaRec {
    pub id: int,
    pub hash: Seq<char>,
    pub mime_type: Seq<char>,
    pub size: int,
    pub created_at: Seq<char>,
}

impl View for StoredImage {
    type V = ImageRec;

    open spec fn view(&self) -> ImageRec {
        ImageRec {
            id: self.id as int,
            hash: self.hash@,
            data: self.data@,
            mime_type: self.mime_type@,
            size: self.size as int,
            created_at: self.created_at@,
        }
    }
}

impl View for ImageReference {
    type V = RefRec;

    open spec fn view(&self) -> RefRec {
        RefRec {
            id: self.id as int,
            image_id: self.image_id as int,
            conversation_id: self.conversation_id@,
            created_at: self.created_at@,
        }
    }
}

impl View for ImageMetadata {
    type V = MetaRec;

    open spec fn view(&self) -> MetaRec {
        MetaRec {
            id: self.id as int,
            hash: self.hash@,
            mime_type: self.mime_type@,
            size: self.size as int,
            created_at: self.created_at@,
        }
    }
}

/// The metadata of a stored image.
pub open spec fn meta_of(img: ImageRec) -> MetaRec {
    MetaRec {
        id: img.id,
        hash: img.hash,
        mime_type: img.mime_type,
        size: img.size,
        created_at: img.created_at,
    }
}

/// The whole store, as contracts speak of it.
#[verifier::ext_equal]
pub struct StoreView {
    pub images: Seq<ImageRec>,
    pub refs: Seq<RefRec>,
    pub next_image_id: int,
    pub next_ref_id: int,
}

/// Index of the first image whose hash is `h`, scanning from `i`; `-1` when
/// there is none. Under the store invariant at most one image matches.
pub open spec fn idx_of_hash_from(images: Seq<ImageRec>, h: Seq<char>, i: int) -> int
    decreases images.len() - i,
{
    if i < 0 || i >= images.len() {
        -1
    } else if images[i].hash == h {
        i
    } else {
        idx_of_hash_from(images, h, i + 1)
    }
}

pub open spec fn idx_of_hash(images: Seq<ImageRec>, h: Seq<char>) -> int {
    idx_of_hash_from(images, h, 0)
}

/// Index of the first image whose id is `image_id`, scanning from `i`; `-1`
/// when there is none. Under the store invariant ids are unique.
pub open spec fn idx_of_id_from(images: Seq<ImageRec>, image_id: int, i: int) -> int
    decreases images.len() - i,
{
    if i < 0 || i >= images.len() {
        -1
    } else if images[i].id == image_id {
        i
    } else {
        idx_of_id_from(images, image_id, i + 1)
    }
}

pub open spec fn idx_of_id(images: Seq<ImageRec>, image_id: int) -> int {
    idx_of_id_from(images, image_id, 0)
}

/// Some stored image has this id.
pub open spec fn has_image_id(images: Seq<ImageRec>, image_id: int) -> bool {
    exists|j: int| 0 <= j < images.len() && (#[trigger] images[j].id) == image_id
}

/// Some reference links this image to this conversation.
pub open spec fn has_pair(refs: Seq<RefRec>, image_id: int, conversation_id: Seq<char>) -> bool {
    exists|j: int|
        0 <= j < refs.len() && (#[trigger] refs[j].image_id) == image_id
            && refs[j].conversation_id == conversation_id
}

/// Some reference points at this image.
pub open spec fn image_has_ref(refs: Seq<RefRec>, image_id: int) -> bool {
    exists|j: int| 0 <= j < refs.len() && (#[trigger] refs[j].image_id) == image_id
}

/// The store's invariant.
///
/// Image ids and reference ids are assigned from strictly increasing
/// counters and never reused; every image's hash is the digest of its bytes
/// and its size is its byte count; the hash is unique across images; the
/// pair `(image_id, conversation_id)` is unique across references; and every
/// reference points at a stored image.
pub open spec fn store_inv(v: StoreView) -> bool {
    &&& 1 <= v.next_image_id
    &&& 1 <= v.next_ref_id
    &&& forall|i: int|
        0 <= i < v.images.len() ==> 1 <= (#[trigger] v.images[i].id) < v.next_image_id
    &&& forall|i: int, j: int|
        0 <= i < j < v.images.len() ==> (#[trigger] v.images[i].id) < (#[trigger] v.images[j].id)
    &&& forall|i: int|
        0 <= i < v.images.len() ==> (#[trigger] v.images[i].hash) == sha256_hex_of(
            v.images[i].data,
        )
    &&& forall|i: int|
        0 <= i < v.images.len() ==> (#[trigger] v.images[i].size) == v.images[i].data.len()
    &&& forall|i: int, j: int|
        0 <= i < j < v.images.len() ==> (#[trigger] v.images[i].hash) != (
        #[trigger] v.images[j].hash)
    &&& forall|i: int| 0 <= i < v.refs.len() ==> 1 <= (#[trigger] v.refs[i].id) < v.next_ref_id
    &&& forall|i: int, j: int|
        0 <= i < j < v.refs.len() ==> (#[trigger] v.refs[i].id) < (#[trigger] v.refs[j].id)
    &&& forall|i: int, j: int|
        0 <= i < j < v.refs.len() ==> !((#[trigger] v.refs[i].image_id) == (
        #[trigger] v.refs[j].image_id) && v.refs[i].conversation_id == v.refs[j].conversation_id)
    &&& forall|i: int|
        0 <= i < v.refs.len() ==> has_image_id(v.images, (#[trigger] v.refs[i].image_id))
}

/// The empty store.
pub open spec fn empty_store_view() -> StoreView {
    StoreView {
        images: Seq::<ImageRec>::empty(),
        refs: Seq::<RefRec>::empty(),
        next_image_id: 1,
        next_ref_id: 1,
    }
}

/// The store after linking `image_id` to a conversation: unchanged when the
/// pair is already present (attaching twice is a harmless no-op), else
/// extended by one fresh reference.
pub open spec fn add_ref_model(
    v: StoreView,
    image_id: int,
    conversation_id: Seq<char>,
    created_at: Seq<char>,
) -> StoreView {
    if has_pair(v.refs, image_id, conversation_id) {
        v
    } else {
        StoreView {
            refs: v.refs.push(
                RefRec { id: v.next_ref_id, image_id, conversation_id, created_at },
            ),
            next_ref_id: v.next_ref_id + 1,
            ..v
        }
    }
}

/// The store after a hash-and-store: when the digest of `data` is already
/// stored, only the conversation's reference is ensured (the new call's
/// bytes and mime type are discarded in favor of the stored original — dedup
/// is authoritative); otherwise a fresh image row is created and referenced.
pub open spec fn store_image_model(
    v: StoreView,
    data: Seq<u8>,
    mime_type: Seq<char>,
    conversation_id: Seq<char>,
    created_at: Seq<char>,
) -> StoreView {
    let h = sha256_hex_of(data);
    let j = idx_of_hash(v.images, h);
    if j >= 0 {
        add_ref_model(v, v.images[j].id, conversation_id, created_at)
    } else {
        let img = ImageRec {
            id: v.next_image_id,
            hash: h,
            data,
            mime_type,
            size: data.len() as int,
            created_at,
        };
        add_ref_model(
            StoreView { images: v.images.push(img), next_image_id: v.next_image_id + 1, ..v },
            v.next_image_id,
            conversation_id,
            created_at,
        )
    }
}

/// The metadata a hash-and-store returns: the stored original's when the
/// digest is already present, else the fresh row's.
pub open spec fn store_image_result(
    v: StoreView,
    data: Seq<u8>,
    mime_type: Seq<char>,
    conversation_id: Seq<char>,
    created_at: Seq<char>,
) -> MetaRec {
    let h = sha256_hex_of(data);
    let j = idx_of_hash(v.images, h);
    if j >= 0 {
        meta_of(v.images[j])
    } else {
        MetaRec {
            id: v.next_image_id,
            hash: h,
            mime_type,
            size: data.len() as int,
            created_at,
        }
    }
}

/// The metadata of the conversation's images, one entry per reference whose
/// conversation is `c`, in reference-creation order (`created_at`
/// ascending), scanning from reference index `i`.
pub open spec fn conversation_images_from(
    images: Seq<ImageRec>,
    refs: Seq<RefRec>,
    c: Seq<char>,
    i: int,
) -> Seq<MetaRec>
    decreases refs.len() - i,
{
    if i < 0 || i >= refs.len() {
        Seq::<MetaRec>::empty()
    } else {
        let rest = conversation_images_from(images, refs, c, i + 1);
        if refs[i].conversation_id == c {
            seq![meta_of(images[idx_of_id(images, refs[i].image_id)])] + rest
        } else {
            rest
        }
    }
}

pub open spec fn conversation_images_model(
    images: Seq<ImageRec>,
    refs: Seq<RefRec>,
    c: Seq<char>,
) -> Seq<MetaRec> {
    conversation_images_from(images, refs, c, 0)
}

/// The references that survive deleting conversation `c`: exactly those
/// belonging to other conversations, in their original order.
pub open spec fn kept_refs_from(refs: Seq<RefRec>, c: Seq<char>, i: int) -> Seq<RefRec>
    decreases refs.len() - i,
{
    if i < 0 || i >= refs.len() {
        Seq::<RefRec>::empty()
    } else {
        let rest = kept_refs_from(refs, c, i + 1);
        if refs[i].conversation_id == c {
            rest
        } else {
            seq![refs[i]] + rest
        }
    }
}

pub open spec fn kept_refs(refs: Seq<RefRec>, c: Seq<char>) -> Seq<RefRec> {
    kept_refs_from(refs, c, 0)
}

/// How many references belong to conversation `c`.
pub open spec fn count_refs_for_from(refs: Seq<RefRec>, c: Seq<char>, i: int) -> int
    decreases refs.len() - i,
{
    if i < 0 || i >= refs.len() {
        0
    } else {
        (if refs[i].conversation_id == c {
            1int
        } else {
            0int
        }) + count_refs_for_from(refs, c, i + 1)
    }
}

pub open spec fn count_refs_for(refs: Seq<RefRec>, c: Seq<char>) -> int {
    count_refs_for_from(refs, c, 0)
}

/// The images that survive the orphan reaper: exactly those with at least
/// one reference, in their original order.
pub open spec fn kept_images_from(images: Seq<ImageRec>, refs: Seq<RefRec>, i: int) -> Seq<
    ImageRec,
>
    decreases images.len() - i,
{
    if i < 0 || i >= images.len() {
        Seq::<ImageRec>::empty()
    } else {
        let rest = kept_images_from(images, refs, i + 1);
        if image_has_ref(refs, images[i].id) {
            seq![images[i]] + rest
        } else {
            rest
        }
    }
}

pub open spec fn kept_images(images: Seq<ImageRec>, refs: Seq<RefRec>) -> Seq<ImageRec> {
    kept_images_from(images, refs, 0)
}

/// How many images have no reference at all.
pub open spec fn orphan_count_from(images: Seq<ImageRec>, refs: Seq<RefRec>, i: int) -> int
    decreases images.len() - i,
{
    if i < 0 || i >= images.len() {
        0
    } else {
        (if image_has_ref(refs, images[i].id) {
            0int
        } else {
            1int
        }) + orphan_count_from(images, refs, i + 1)
    }
}

pub open spec fn orphan_count(images: Seq<ImageRec>, refs: Seq<RefRec>) -> int {
    orphan_count_from(images, refs, 0)
}

/// The total byte size of the stored images.
pub open spec fn total_size_from(images: Seq<ImageRec>, i: int) -> int
    decreases images.len() - i,
{
    if i < 0 || i >= images.len() {
        0
    } else {
        images[i].size + total_size_from(images, i + 1)
    }
}

pub open spec fn total_size(images: Seq<ImageRec>) -> int {
    total_size_from(images, 0)
}

/// What survives deleting a conversation's references: every survivor is
/// one of the original references (of another conversation), their ids stay
/// strictly increasing, and the pair uniqueness is kept.
pub proof fn lemma_kept_refs_props(refs: Seq<RefRec>, c: Seq<char>, i: int)
    requires
        0 <= i,
        forall|a: int, b: int|
            0 <= a < b < refs.len() ==> (#[trigger] refs[a].id) < (#[trigger] refs[b].id),
        forall|a: int, b: int|
            0 <= a < b < refs.len() ==> !((#[trigger] refs[a].image_id) == (
            #[trigger] refs[b].image_id) && refs[a].conversation_id == refs[b].conversation_id),
    ensures
        forall|a: int|
            0 <= a < kept_refs_from(refs, c, i).len() ==> exists|k: int|
                i <= k < refs.len() && (#[trigger] kept_refs_from(refs, c, i)[a]) == refs[k],
        forall|a: int|
            0 <= a < kept_refs_from(refs, c, i).len() ==> (#[trigger] kept_refs_from(
                refs,
                c,
                i,
            )[a].conversation_id) != c,
        forall|a: int, b: int|
            0 <= a < b < kept_refs_from(refs, c, i).len() ==> (#[trigger] kept_refs_from(
                refs,
                c,
                i,
            )[a].id) < (#[trigger] kept_refs_from(refs, c, i)[b].id),
        forall|a: int, b: int|
            0 <= a < b < kept_refs_from(refs, c, i).len() ==> !((#[trigger] kept_refs_from(
                refs,
                c,
                i,
            )[a].image_id) == (#[trigger] kept_refs_from(refs, c, i)[b].image_id)
                && kept_refs_from(refs, c, i)[a].conversation_id == kept_refs_from(
                refs,
                c,
                i,
            )[b].conversation_id),
    decreases refs.len() - i,
{
    if 0 <= i < refs.len() {
        lemma_kept_refs_props(refs, c, i + 1);
        let kept = kept_refs_from(refs, c, i);
        let rest = kept_refs_from(refs, c, i + 1);
        if refs[i].conversation_id != c {
            assert(kept == seq![refs[i]] + rest);
            assert forall|a: int| 0 <= a < kept.len() implies exists|k: int|
                i <= k < refs.len() && (#[trigger] kept[a]) == refs[k] by {
                if a == 0 {
                    assert(kept[a] == refs[i]);
                } else {
                    assert(kept[a] == rest[a - 1]);
                    let k = choose|k: int|
                        i + 1 <= k < refs.len() && (#[trigger] rest[a - 1]) == refs[k];
                    assert(kept[a] == refs[k]);
                }
            }
            assert forall|a: int, b: int| 0 <= a < b < kept.len() implies (#[trigger] kept[a].id)
                < (#[trigger] kept[b].id) by {
                if a == 0 {
                    assert(kept[b] == rest[b - 1]);
                    let k = choose|k: int|
                        i + 1 <= k < refs.len() && (#[trigger] rest[b - 1]) == refs[k];
                    assert(refs[i].id < refs[k].id);
                } else {
                    assert(kept[a] == rest[a - 1] && kept[b] == rest[b - 1]);
                }
            }
            assert forall|a: int, b: int| 0 <= a < b < kept.len() implies !((
            #[trigger] kept[a].image_id) == (#[trigger] kept[b].image_id)
                && kept[a].conversation_id == kept[b].conversation_id) by {
                if a == 0 {
                    assert(kept[b] == rest[b - 1]);
                    let k = choose|k: int|
                        i + 1 <= k < refs.len() && (#[trigger] rest[b - 1]) == refs[k];
                    assert(!(refs[i].image_id == refs[k].image_id && refs[i].conversation_id
                        == refs[k].conversation_id));
                } else {
                    assert(kept[a] == rest[a - 1] && kept[b] == rest[b - 1]);
                }
            }
        }
    }
}

/// What survives the orphan reaper: every survivor is one of the original
/// images and has a reference; ids stay strictly increasing and hashes stay
/// pairwise distinct; and every image that has a reference survives.
pub proof fn lemma_kept_images_props(images: Seq<ImageRec>, refs: Seq<RefRec>, i: int)
    requires
        0 <= i,
        forall|a: int, b: int|
            0 <= a < b < images.len() ==> (#[trigger] images[a].id) < (#[trigger] images[b].id),
        forall|a: int, b: int|
            0 <= a < b < images.len() ==> (#[trigger] images[a].hash) != (
            #[trigger] images[b].hash),
    ensures
        forall|a: int|
            0 <= a < kept_images_from(images, refs, i).len() ==> exists|k: int|
                i <= k < images.len() && (#[trigger] kept_images_from(images, refs, i)[a])
                    == images[k],
        forall|a: int|
            0 <= a < kept_images_from(images, refs, i).len() ==> image_has_ref(
                refs,
                (#[trigger] kept_images_from(images, refs, i)[a].id),
            ),
        forall|a: int, b: int|
            0 <= a < b < kept_images_from(images, refs, i).len() ==> (#[trigger] kept_images_from(
                images,
                refs,
                i,
            )[a].id) < (#[trigger] kept_images_from(images, refs, i)[b].id),
        forall|a: int, b: int|
            0 <= a < b < kept_images_from(images, refs, i).len() ==> (#[trigger] kept_images_from(
                images,
                refs,
                i,
            )[a].hash) != (#[trigger] kept_images_from(images, refs, i)[b].hash),
        forall|l: int|
            i <= l < images.len() && image_has_ref(refs, (#[trigger] images[l].id))
                ==> kept_images_from(images, refs, i).contains(images[l]),
    decreases images.len() - i,
{
    if 0 <= i < images.len() {
        lemma_kept_images_props(images, refs, i + 1);
        let kept = kept_images_from(images, refs, i);
        let rest = kept_images_from(images, refs, i + 1);
        if image_has_ref(refs, images[i].id) {
            assert(kept == seq![images[i]] + rest);
            assert forall|a: int| 0 <= a < kept.len() implies exists|k: int|
                i <= k < images.len() && (#[trigger] kept[a]) == images[k] by {
                if a == 0 {
                    assert(kept[a] == images[i]);
                } else {
                    assert(kept[a] == rest[a - 1]);
                    let k = choose|k: int|
                        i + 1 <= k < images.len() && (#[trigger] rest[a - 1]) == images[k];
                    assert(kept[a] == images[k]);
                }
            }
            assert forall|a: int| 0 <= a < kept.len() implies image_has_ref(
                refs,
                (#[trigger] kept[a].id),
            ) by {
                if a == 0 {
                    assert(kept[a] == images[i]);
                } else {
                    assert(kept[a] == rest[a - 1]);
                }
            }
            assert forall|a: int, b: int| 0 <= a < b < kept.len() implies (#[trigger] kept[a].id)
                < (#[trigger] kept[b].id) by {
                if a == 0 {
                    assert(kept[b] == rest[b - 1]);
                    let k = choose|k: int|
                        i + 1 <= k < images.len() && (#[trigger] rest[b - 1]) == images[k];
                    assert(images[i].id < images[k].id);
                } else {
                    assert(kept[a] == rest[a - 1] && kept[b] == rest[b - 1]);
                }
            }
            assert forall|a: int, b: int| 0 <= a < b < kept.len() implies (#[trigger] kept[a].hash)
                != (#[trigger] kept[b].hash) by {
                if a == 0 {
                    assert(kept[b] == rest[b - 1]);
                    let k = choose|k: int|
                        i + 1 <= k < images.len() && (#[trigger] rest[b - 1]) == images[k];
                    assert(images[i].hash != images[k].hash);
                } else {
                    assert(kept[a] == rest[a - 1] && kept[b] == rest[b - 1]);
                }
            }
            assert forall|l: int|
                i <= l < images.len() && image_has_ref(refs, (#[trigger] images[l].id)) implies kept
                .contains(images[l]) by {
                if l == i {
                    assert(kept[0] == images[l]);
                } else {
                    assert(rest.contains(images[l]));
                    let a = choose|a: int| 0 <= a < rest.len() && rest[a] == images[l];
                    assert(kept[a + 1] == images[l]);
                }
            }
        } else {
            assert(kept == rest);
            assert forall|l: int|
                i <= l < images.len() && image_has_ref(refs, (#[trigger] images[l].id)) implies kept
                .contains(images[l]) by {
                if l == i {
                    assert(false);
                } else {
                    assert(rest.contains(images[l]));
                }
            }
        }
    }
}

/// Lookup failure: the id names nothing stored.
#[derive(Debug, PartialEq, Eq, Structural)]
pub enum StoreError {
    NotFound,
}

/// In-memory content store, reference ledger, orphan reaper and stats
/// accessor, all over one shared state.
pub struct ImageStore {
    images: Vec<StoredImage>,
    references: Vec<ImageReference>,
    next_image_id: i64,
    next_reference_id: i64,
}

impl View for ImageStore {
    type V = StoreView;

    closed spec fn view(&self) -> StoreView {
        StoreView {
            images: self.images@.map_values(|x: StoredImage| x@),
            refs: self.references@.map_values(|x: ImageReference| x@),
            next_image_id: self.next_image_id as int,
            next_ref_id: self.next_reference_id as int,
        }
    }
}

/// Scanning from `i` either finds a first match in range or reports that no
/// index at or past `i` matches.
pub proof fn lemma_idx_of_hash_from_props(images: Seq<ImageRec>, h: Seq<char>, i: int)
    requires
        0 <= i,
    ensures
        idx_of_hash_from(images, h, i) == -1 ==> forall|k: int|
            i <= k < images.len() ==> (#[trigger] images[k].hash) != h,
        idx_of_hash_from(images, h, i) != -1 ==> i <= idx_of_hash_from(images, h, i)
            < images.len() && images[idx_of_hash_from(images, h, i)].hash == h,
    decreases images.len() - i,
{
    if i < images.len() && images[i].hash != h {
        lemma_idx_of_hash_from_props(images, h, i + 1);
    }
}

pub proof fn lemma_idx_of_id_from_props(images: Seq<ImageRec>, image_id: int, i: int)
    requires
        0 <= i,
    ensures
        idx_of_id_from(images, image_id, i) == -1 ==> forall|k: int|
            i <= k < images.len() ==> (#[trigger] images[k].id) != image_id,
        idx_of_id_from(images, image_id, i) != -1 ==> i <= idx_of_id_from(images, image_id, i)
            < images.len() && images[idx_of_id_from(images, image_id, i)].id == image_id,
    decreases images.len() - i,
{
    if i < images.len() && images[i].id != image_id {
        lemma_idx_of_id_from_props(images, image_id, i + 1);
    }
}

impl ImageStore {
    pub open spec fn wf(&self) -> bool {
        store_inv(self@)
    }

    /// A store with no images and no references.
    pub fn new() -> (r: ImageStore)
        ensures
            r@ == empty_store_view(),
            r.wf(),
    {
        let r = ImageStore {
            images: Vec::new(),
            references: Vec::new(),
            next_image_id: 1,
            next_reference_id: 1,
        };
        proof {
            assert(r@ =~= empty_store_view());
        }
        r
    }

    /// Whether fresh image and reference ids can still be allocated. An
    /// unverified caller tests this before storing or referencing.
    pub fn has_id_capacity(&self) -> (r: bool)
        ensures
            r == (self@.next_image_id < i64::MAX && self@.next_ref_id < i64::MAX),
    {
        self.next_image_id < i64::MAX && self.next_reference_id < i64::MAX
    }

    /// Index of the image whose hash is `h`, if any.
    fn find_by_hash(&self, h: &String) -> (r: Option<usize>)
        ensures
            r is Some ==> idx_of_hash(self@.images, h@) == r->Some_0 && r->Some_0
                < self@.images.len(),
            r is None ==> idx_of_hash(self@.images, h@) == -1,
    {
        let mut i: usize = 0;
        while i < self.images.len()
            invariant
                i <= self@.images.len(),
                idx_of_hash(self@.images, h@) == idx_of_hash_from(self@.images, h@, i as int),
            decreases self@.images.len() - i,
        {
            if self.images[i].hash == *h {
                proof {
                    assert(self@.images[i as int] == self.images@[i as int]@);
                    assert(idx_of_hash_from(self@.images, h@, i as int) == i);
                }
                return Some(i);
            }
            proof {
                assert(self@.images[i as int] == self.images@[i as int]@);
                assert(idx_of_hash_from(self@.images, h@, i as int) == idx_of_hash_from(
                    self@.images,
                    h@,
                    i as int + 1,
                ));
            }
            i = i + 1;
        }
        None
    }

    /// Index of the image whose id is `image_id`, if any.
    fn find_by_id(&self, image_id: i64) -> (r: Option<usize>)
        ensures
            r is Some ==> idx_of_id(self@.images, image_id as int) == r->Some_0 && r->Some_0
                < self@.images.len(),
            r is None ==> idx_of_id(self@.images, image_id as int) == -1,
    {
        let mut i: usize = 0;
        while i < self.images.len()
            invariant
                i <= self@.images.len(),
                idx_of_id(self@.images, image_id as int) == idx_of_id_from(
                    self@.images,
                    image_id as int,
                    i as int,
                ),
            decreases self@.images.len() - i,
        {
            if self.images[i].id == image_id {
                proof {
                    assert(self@.images[i as int] == self.images@[i as int]@);
                    assert(idx_of_id_from(self@.images, image_id as int, i as int) == i);
                }
                return Some(i);
            }
            proof {
                assert(self@.images[i as int] == self.images@[i as int]@);
                assert(idx_of_id_from(self@.images, image_id as int, i as int) == idx_of_id_from(
                    self@.images,
                    image_id as int,
                    i as int + 1,
                ));
            }
            i = i + 1;
        }
        None
    }

    /// Ensures one reference linking `image_id` to the conversation.
    fn add_reference_internal(
        &mut self,
        image_id: i64,
        conversation_id: &String,
        created_at: &String,
    ) -> (added: bool)
        requires
            old(self).wf(),
            has_image_id(old(self)@.images, image_id as int),
            old(self)@.next_ref_id < i64::MAX,
        ensures
            final(self).wf(),
            final(self)@ == add_ref_model(
                old(self)@,
                image_id as int,
                conversation_id@,
                created_at@,
            ),
            added == !has_pair(old(self)@.refs, image_id as int, conversation_id@),
    {
        let mut i: usize = 0;
        while i < self.references.len()
            invariant
                *self == *old(self),
                old(self).wf(),
                old(self)@.next_ref_id < i64::MAX,
                i <= self@.refs.len(),
                forall|k: int|
                    0 <= k < i ==> !((#[trigger] self@.refs[k].image_id) == image_id
                        && self@.refs[k].conversation_id == conversation_id@),
            decreases self@.refs.len() - i,
        {
            if self.references[i].image_id == image_id && self.references[i].conversation_id
                == *conversation_id {
                proof {
                    assert(self@.refs[i as int] == self.references@[i as int]@);
                    assert(self@.refs[i as int].image_id == image_id as int);
                    assert(self@.refs[i as int].conversation_id == conversation_id@);
                    assert(has_pair(self@.refs, image_id as int, conversation_id@));
                }
                return false;
            }
            proof {
                assert(self@.refs[i as int] == self.references@[i as int]@);
            }
            i = i + 1;
        }
        proof {
            assert(!has_pair(self@.refs, image_id as int, conversation_id@));
        }
        let ghost v0 = self@;
        let ref_id = self.next_reference_id;
        self.references.push(
            ImageReference {
                id: ref_id,
                image_id,
                conversation_id: conversation_id.clone(),
                created_at: created_at.clone(),
            },
        );
        self.next_reference_id = ref_id + 1;
        proof {
            let added_ref = RefRec {
                id: v0.next_ref_id,
                image_id: image_id as int,
                conversation_id: conversation_id@,
                created_at: created_at@,
            };
            assert(self@.refs =~= v0.refs.push(added_ref));
            assert(self@ =~= add_ref_model(v0, image_id as int, conversation_id@, created_at@));
            assert(store_inv(self@)) by {
                let v = self@;
                assert forall|a: int, b: int| 0 <= a < b < v.refs.len() implies (
                #[trigger] v.refs[a].id) < (#[trigger] v.refs[b].id) by {
                    if b == v.refs.len() - 1 {
                        assert(v.refs[a] == v0.refs[a]);
                    }
                }
                assert forall|a: int, b: int| 0 <= a < b < v.refs.len() implies !((
                #[trigger] v.refs[a].image_id) == (#[trigger] v.refs[b].image_id)
                    && v.refs[a].conversation_id == v.refs[b].conversation_id) by {
                    if b == v.refs.len() - 1 {
                        assert(v.refs[a] == v0.refs[a]);
                        assert(!(v0.refs[a].image_id == image_id && v0.refs[a].conversation_id
                            == conversation_id@));
                    }
                }
                assert forall|a: int| 0 <= a < v.refs.len() implies has_image_id(
                    v.images,
                    (#[trigger] v.refs[a].image_id),
                ) by {
                    if a < v.refs.len() - 1 {
                        assert(v.refs[a] == v0.refs[a]);
                        assert(has_image_id(v0.images, v0.refs[a].image_id));
                    }
                    assert(v.images == v0.images);
                }
            }
        }
        true
    }

    /// Links `image_id` to the conversation: a no-op returning `Ok(false)`
    /// when the pair already exists, else creates the reference and returns
    /// `Ok(true)`. Fails with `NotFound` exactly when no stored image has
    /// this id, leaving the store unchanged.
    pub fn add_reference(
        &mut self,
        image_id: i64,
        conversation_id: &String,
        created_at: &String,
    ) -> (r: Result<bool, StoreError>)
        requires
            old(self).wf(),
            old(self)@.next_ref_id < i64::MAX,
        ensures
            final(self).wf(),
            r is Ok <==> has_image_id(old(self)@.images, image_id as int),
            r is Ok ==> final(self)@ == add_ref_model(
                old(self)@,
                image_id as int,
                conversation_id@,
                created_at@,
            ),
            r is Ok ==> r->Ok_0 == !has_pair(old(self)@.refs, image_id as int, conversation_id@),
            r is Err ==> *final(self) == *old(self) && r->Err_0 is NotFound,
    {
        let found = self.find_by_id(image_id);
        match found {
            Some(_) => {
                proof {
                    lemma_idx_of_id_from_props(self@.images, image_id as int, 0);
                    let j = idx_of_id(self@.images, image_id as int);
                    assert(self@.images[j].id == image_id);
                }
                let added = self.add_reference_internal(image_id, conversation_id, created_at);
                Ok(added)
            },
            None => {
                proof {
                    lemma_idx_of_id_from_props(self@.images, image_id as int, 0);
                }
                Err(StoreError::NotFound)
            },
        }
    }

    /// Hash-and-store: computes the digest of `data`; when an image with
    /// that digest is already stored, returns its metadata unchanged,
    /// otherwise stores a fresh row; either way the conversation's reference
    /// to the image is ensured as part of the same attach operation.
    pub fn store_image(
        &mut self,
        data: Vec<u8>,
        mime_type: String,
        conversation_id: &String,
        created_at: &String,
    ) -> (r: ImageMetadata)
        requires
            old(self).wf(),
            data@.len() <= i64::MAX,
            old(self)@.next_image_id < i64::MAX,
            old(self)@.next_ref_id < i64::MAX,
        ensures
            final(self).wf(),
            final(self)@ == store_image_model(
                old(self)@,
                data@,
                mime_type@,
                conversation_id@,
                created_at@,
            ),
            r@ == store_image_result(old(self)@, data@, mime_type@, conversation_id@, created_at@),
    {
        let h = sha256_hex(data.as_slice());
        let found = self.find_by_hash(&h);
        match found {
            Some(j) => {
                let ghost v0 = self@;
                let image_id = self.images[j].id;
                let r = ImageMetadata {
                    id: image_id,
                    hash: self.images[j].hash.clone(),
                    mime_type: self.images[j].mime_type.clone(),
                    size: self.images[j].size,
                    created_at: self.images[j].created_at.clone(),
                };
                proof {
                    assert(v0.images[j as int] == self.images@[j as int]@);
                    assert(r@ == meta_of(v0.images[j as int]));
                    assert(v0.images[j as int].id == image_id);
                    assert(has_image_id(v0.images, image_id as int));
                }
                self.add_reference_internal(image_id, conversation_id, created_at);
                r
            },
            None => {
                proof {
                    lemma_idx_of_hash_from_props(self@.images, h@, 0);
                }
                let ghost v0 = self@;
                let id = self.next_image_id;
                let size = data.len() as i64;
                let ghost data_view = data@;
                let img = StoredImage {
                    id,
                    hash: h.clone(),
                    data,
                    mime_type: mime_type.clone(),
                    size,
                    created_at: created_at.clone(),
                };
                let r = ImageMetadata {
                    id,
                    hash: h,
                    mime_type,
                    size,
                    created_at: created_at.clone(),
                };
                self.images.push(img);
                self.next_image_id = id + 1;
                proof {
                    let img_rec = ImageRec {
                        id: v0.next_image_id,
                        hash: sha256_hex_of(data_view),
                        data: data_view,
                        mime_type: r.mime_type@,
                        size: data_view.len() as int,
                        created_at: created_at@,
                    };
                    let v1 = StoreView {
                        images: v0.images.push(img_rec),
                        next_image_id: v0.next_image_id + 1,
                        ..v0
                    };
                    assert(self@.images =~= v0.images.push(img_rec));
                    assert(self@ =~= v1);
                    assert(store_inv(v1)) by {
                        assert forall|a: int, b: int| 0 <= a < b < v1.images.len() implies (
                        #[trigger] v1.images[a].id) < (#[trigger] v1.images[b].id) by {
                            if b == v1.images.len() - 1 {
                                assert(v1.images[a] == v0.images[a]);
                            }
                        }
                        assert forall|a: int, b: int| 0 <= a < b < v1.images.len() implies (
                        #[trigger] v1.images[a].hash) != (#[trigger] v1.images[b].hash) by {
                            if b == v1.images.len() - 1 {
                                assert(v1.images[a] == v0.images[a]);
                                assert(v0.images[a].hash != h@);
                            }
                        }
                        assert forall|a: int| 0 <= a < v1.refs.len() implies has_image_id(
                            v1.images,
                            (#[trigger] v1.refs[a].image_id),
                        ) by {
                            assert(has_image_id(v0.images, v0.refs[a].image_id));
                            let w = choose|w: int|
                                0 <= w < v0.images.len() && (#[trigger] v0.images[w].id)
                                    == v0.refs[a].image_id;
                            assert(v1.images[w] == v0.images[w]);
                        }
                    }
                    assert(v1.images[v1.images.len() - 1].id == id);
                    assert(has_image_id(v1.images, id as int));
                }
                self.add_reference_internal(id, conversation_id, created_at);
                r
            },
        }
    }

    /// Full stored image for `image_id`, bytes included; `NotFound` exactly
    /// when no stored image has this id.
    pub fn get_image(&self, image_id: i64) -> (r: Result<StoredImage, StoreError>)
        requires
            self.wf(),
        ensures
            r is Ok <==> has_image_id(self@.images, image_id as int),
            r is Ok ==> r->Ok_0@ == self@.images[idx_of_id(self@.images, image_id as int)],
            r is Err ==> r->Err_0 is NotFound,
    {
        proof {
            lemma_idx_of_id_from_props(self@.images, image_id as int, 0);
        }
        match self.find_by_id(image_id) {
            Some(j) => {
                let img = &self.images[j];
                let out = StoredImage {
                    id: img.id,
                    hash: img.hash.clone(),
                    data: clone_bytes(&img.data),
                    mime_type: img.mime_type.clone(),
                    size: img.size,
                    created_at: img.created_at.clone(),
                };
                proof {
                    assert(self@.images[j as int] == self.images@[j as int]@);
                    assert(out@ == self@.images[j as int]);
                    assert(has_image_id(self@.images, image_id as int));
                }
                Ok(out)
            },
            None => Err(StoreError::NotFound),
        }
    }

    /// Metadata of the image whose digest is `hash`; absence is a normal
    /// outcome, not an error.
    pub fn get_image_by_hash(&self, hash: &String) -> (r: Option<ImageMetadata>)
        ensures
            r is Some <==> idx_of_hash(self@.images, hash@) >= 0,
            r is Some ==> r->Some_0@ == meta_of(
                self@.images[idx_of_hash(self@.images, hash@)],
            ),
            r is None ==> forall|k: int|
                0 <= k < self@.images.len() ==> (#[trigger] self@.images[k].hash) != hash@,
    {
        proof {
            lemma_idx_of_hash_from_props(self@.images, hash@, 0);
        }
        match self.find_by_hash(hash) {
            Some(j) => {
                let img = &self.images[j];
                let out = ImageMetadata {
                    id: img.id,
                    hash: img.hash.clone(),
                    mime_type: img.mime_type.clone(),
                    size: img.size,
                    created_at: img.created_at.clone(),
                };
                proof {
                    assert(self@.images[j as int] == self.images@[j as int]@);
                    assert(out@ == meta_of(self@.images[j as int]));
                }
                Some(out)
            },
            None => None,
        }
    }

    /// Metadata of the conversation's images, ordered by reference creation
    /// (`created_at` ascending), one entry per reference.
    pub fn get_conversation_images(&self, conversation_id: &String) -> (r: Vec<ImageMetadata>)
        requires
            self.wf(),
        ensures
            r@.map_values(|m: ImageMetadata| m@) == conversation_images_model(
                self@.images,
                self@.refs,
                conversation_id@,
            ),
    {
        let mut out: Vec<ImageMetadata> = Vec::new();
        proof {
            assert(out@.map_values(|m: ImageMetadata| m@) + conversation_images_from(
                self@.images,
                self@.refs,
                conversation_id@,
                0,
            ) =~= conversation_images_model(self@.images, self@.refs, conversation_id@));
        }
        let mut i: usize = 0;
        while i < self.references.len()
            invariant
                self.wf(),
                i <= self@.refs.len(),
                out@.map_values(|m: ImageMetadata| m@) + conversation_images_from(
                    self@.images,
                    self@.refs,
                    conversation_id@,
                    i as int,
                ) == conversation_images_model(self@.images, self@.refs, conversation_id@),
            decreases self@.refs.len() - i,
        {
            let ghost pre_out = out@;
            proof {
                assert(self@.refs[i as int] == self.references@[i as int]@);
            }
            if self.references[i].conversation_id == *conversation_id {
                let image_id = self.references[i].image_id;
                proof {
                    assert(has_image_id(self@.images, self@.refs[i as int].image_id));
                    lemma_idx_of_id_from_props(self@.images, image_id as int, 0);
                    if idx_of_id(self@.images, image_id as int) == -1 {
                        let w = choose|w: int|
                            0 <= w < self@.images.len() && (#[trigger] self@.images[w].id)
                                == image_id as int;
                        assert(false);
                    }
                }
                let j = match self.find_by_id(image_id) {
                    Some(j) => j,
                    None => {
                        proof {
                            assert(false);
                        }
                        0
                    },
                };
                let img = &self.images[j];
                let m = ImageMetadata {
                    id: img.id,
                    hash: img.hash.clone(),
                    mime_type: img.mime_type.clone(),
                    size: img.size,
                    created_at: img.created_at.clone(),
                };
                out.push(m);
                proof {
                    assert(self@.images[j as int] == self.images@[j as int]@);
                    assert(out@.last()@ == meta_of(self@.images[j as int]));
                    assert(out@.map_values(|m: ImageMetadata| m@) =~= pre_out.map_values(
                        |m: ImageMetadata| m@,
                    ).push(meta_of(self@.images[j as int])));
                    assert(out@.map_values(|m: ImageMetadata| m@) + conversation_images_from(
                        self@.images,
                        self@.refs,
                        conversation_id@,
                        i as int + 1,
                    ) =~= pre_out.map_values(|m: ImageMetadata| m@) + conversation_images_from(
                        self@.images,
                        self@.refs,
                        conversation_id@,
                        i as int,
                    ));
                }
            } else {
                proof {
                    assert(conversation_images_from(
                        self@.images,
                        self@.refs,
                        conversation_id@,
                        i as int,
                    ) == conversation_images_from(
                        self@.images,
                        self@.refs,
                        conversation_id@,
                        i as int + 1,
                    ));
                }
            }
            i = i + 1;
        }
        proof {
            assert(out@.map_values(|m: ImageMetadata| m@) + conversation_images_from(
                self@.images,
                self@.refs,
                conversation_id@,
                self@.refs.len() as int,
            ) =~= out@.map_values(|m: ImageMetadata| m@));
        }
        out
    }

    /// Deletes every reference belonging to this conversation — and only
    /// those — atomically, returning the true count removed (possibly zero).
    /// Images themselves are untouched; reaping orphans is separate.
    pub fn delete_conversation_images(&mut self, conversation_id: &String) -> (count: usize)
        requires
            old(self).wf(),
        ensures
            final(self).wf(),
            final(self)@ == (StoreView {
                refs: kept_refs(old(self)@.refs, conversation_id@),
                ..old(self)@
            }),
            count == count_refs_for(old(self)@.refs, conversation_id@),
    {
        let mut kept: Vec<ImageReference> = Vec::new();
        let mut removed: usize = 0;
        let mut i: usize = 0;
        proof {
            assert(kept@.map_values(|x: ImageReference| x@) + kept_refs_from(
                self@.refs,
                conversation_id@,
                0,
            ) =~= kept_refs(self@.refs, conversation_id@));
        }
        while i < self.references.len()
            invariant
                *self == *old(self),
                old(self).wf(),
                i <= self@.refs.len(),
                removed <= i,
                kept@.map_values(|x: ImageReference| x@) + kept_refs_from(
                    self@.refs,
                    conversation_id@,
                    i as int,
                ) == kept_refs(self@.refs, conversation_id@),
                removed + count_refs_for_from(self@.refs, conversation_id@, i as int)
                    == count_refs_for(self@.refs, conversation_id@),
            decreases self@.refs.len() - i,
        {
            let ghost pre_kept = kept@;
            proof {
                assert(self@.refs[i as int] == self.references@[i as int]@);
            }
            if self.references[i].conversation_id == *conversation_id {
                removed = removed + 1;
            } else {
                let r = &self.references[i];
                kept.push(
                    ImageReference {
                        id: r.id,
                        image_id: r.image_id,
                        conversation_id: r.conversation_id.clone(),
                        created_at: r.created_at.clone(),
                    },
                );
                proof {
                    assert(kept@.last()@ == self@.refs[i as int]);
                    assert(kept@.map_values(|x: ImageReference| x@) =~= pre_kept.map_values(
                        |x: ImageReference| x@,
                    ).push(self@.refs[i as int]));
                    assert(kept@.map_values(|x: ImageReference| x@) + kept_refs_from(
                        self@.refs,
                        conversation_id@,
                        i as int + 1,
                    ) =~= pre_kept.map_values(|x: ImageReference| x@) + kept_refs_from(
                        self@.refs,
                        conversation_id@,
                        i as int,
                    ));
                }
            }
            i = i + 1;
        }
        proof {
            assert(kept@.map_values(|x: ImageReference| x@) + kept_refs_from(
                self@.refs,
                conversation_id@,
                self@.refs.len() as int,
            ) =~= kept@.map_values(|x: ImageReference| x@));
        }
        let ghost v0 = self@;
        self.references = kept;
        proof {
            assert(self@ =~= (StoreView { refs: kept_refs(v0.refs, conversation_id@), ..v0 }));
            lemma_kept_refs_props(v0.refs, conversation_id@, 0);
            assert(store_inv(self@)) by {
                let v = self@;
                assert forall|a: int| 0 <= a < v.refs.len() implies 1 <= (#[trigger] v.refs[a].id)
                    < v.next_ref_id by {
                    let k = choose|k: int| 0 <= k < v0.refs.len() && (#[trigger] v.refs[a]) == v0.refs[k];
                    assert(1 <= v0.refs[k].id < v0.next_ref_id);
                }
                assert forall|a: int| 0 <= a < v.refs.len() implies has_image_id(
                    v.images,
                    (#[trigger] v.refs[a].image_id),
                ) by {
                    let k = choose|k: int| 0 <= k < v0.refs.len() && (#[trigger] v.refs[a]) == v0.refs[k];
                    assert(has_image_id(v0.images, v0.refs[k].image_id));
                }
            }
        }
        removed
    }

    /// Deletes exactly the images with zero references at this instant, in
    /// one atomic unit, returning the true count deleted (possibly zero). An
    /// image with at least one live reference is never deleted.
    pub fn cleanup_orphaned_images(&mut self) -> (count: usize)
        requires
            old(self).wf(),
        ensures
            final(self).wf(),
            final(self)@ == (StoreView {
                images: kept_images(old(self)@.images, old(self)@.refs),
                ..old(self)@
            }),
            count == orphan_count(old(self)@.images, old(self)@.refs),
    {
        let mut kept: Vec<StoredImage> = Vec::new();
        let mut deleted: usize = 0;
        let mut i: usize = 0;
        proof {
            assert(kept@.map_values(|x: StoredImage| x@) + kept_images_from(
                self@.images,
                self@.refs,
                0,
            ) =~= kept_images(self@.images, self@.refs));
        }
        while i < self.images.len()
            invariant
                *self == *old(self),
                old(self).wf(),
                i <= self@.images.len(),
                deleted <= i,
                kept@.map_values(|x: StoredImage| x@) + kept_images_from(
                    self@.images,
                    self@.refs,
                    i as int,
                ) == kept_images(self@.images, self@.refs),
                deleted + orphan_count_from(self@.images, self@.refs, i as int) == orphan_count(
                    self@.images,
                    self@.refs,
                ),
            decreases self@.images.len() - i,
        {
            let ghost pre_kept = kept@;
            proof {
                assert(self@.images[i as int] == self.images@[i as int]@);
            }
            let keep = self.has_reference_to(self.images[i].id);
            if keep {
                let img = &self.images[i];
                kept.push(
                    StoredImage {
                        id: img.id,
                        hash: img.hash.clone(),
                        data: clone_bytes(&img.data),
                        mime_type: img.mime_type.clone(),
                        size: img.size,
                        created_at: img.created_at.clone(),
                    },
                );
                proof {
                    assert(kept@.last()@ == self@.images[i as int]);
                    assert(kept@.map_values(|x: StoredImage| x@) =~= pre_kept.map_values(
                        |x: StoredImage| x@,
                    ).push(self@.images[i as int]));
                    assert(kept@.map_values(|x: StoredImage| x@) + kept_images_from(
                        self@.images,
                        self@.refs,
                        i as int + 1,
                    ) =~= pre_kept.map_values(|x: StoredImage| x@) + kept_images_from(
                        self@.images,
                        self@.refs,
                        i as int,
                    ));
                }
            } else {
                deleted = deleted + 1;
            }
            i = i + 1;
        }
        proof {
            assert(kept@.map_values(|x: StoredImage| x@) + kept_images_from(
                self@.images,
                self@.refs,
                self@.images.len() as int,
            ) =~= kept@.map_values(|x: StoredImage| x@));
        }
        let ghost v0 = self@;
        self.images = kept;
        proof {
            assert(self@ =~= (StoreView { images: kept_images(v0.images, v0.refs), ..v0 }));
            lemma_kept_images_props(v0.images, v0.refs, 0);
            assert(store_inv(self@)) by {
                let v = self@;
                assert forall|a: int| 0 <= a < v.images.len() implies 1 <= (
                #[trigger] v.images[a].id) < v.next_image_id by {
                    let k = choose|k: int|
                        0 <= k < v0.images.len() && (#[trigger] v.images[a]) == v0.images[k];
                    assert(1 <= v0.images[k].id < v0.next_image_id);
                }
                assert forall|a: int| 0 <= a < v.images.len() implies (#[trigger] v.images[a].hash)
                    == sha256_hex_of(v.images[a].data) && v.images[a].size
                    == v.images[a].data.len() by {
                    let k = choose|k: int|
                        0 <= k < v0.images.len() && (#[trigger] v.images[a]) == v0.images[k];
                    assert(v0.images[k].hash == sha256_hex_of(v0.images[k].data));
                    assert(v0.images[k].size == v0.images[k].data.len());
                }
                assert forall|a: int| 0 <= a < v.refs.len() implies has_image_id(
                    v.images,
                    (#[trigger] v.refs[a].image_id),
                ) by {
                    assert(has_image_id(v0.images, v0.refs[a].image_id));
                    let w = choose|w: int|
                        0 <= w < v0.images.len() && (#[trigger] v0.images[w].id)
                            == v0.refs[a].image_id;
                    assert(image_has_ref(v0.refs, v0.images[w].id));
                    assert(kept_images(v0.images, v0.refs).contains(v0.images[w]));
                    let b = choose|b: int|
                        0 <= b < v.images.len() && (#[trigger] v.images[b]) == v0.images[w];
                    assert(v.images[b].id == v.refs[a].image_id);
                }
            }
        }
        deleted
    }

    /// Aggregate statistics: how many images are stored and their total
    /// byte size. A pure read with no side effects.
    pub fn get_image_stats(&self) -> (r: (usize, u128))
        requires
            self.wf(),
        ensures
            r.0 == self@.images.len(),
            r.1 == total_size(self@.images),
    {
        let count = self.images.len();
        let mut total: u128 = 0;
        let mut i: usize = 0;
        proof {
            assert(forall|k: int|
                0 <= k < self@.images.len() ==> (#[trigger] self@.images[k].size) >= 0);
        }
        while i < self.images.len()
            invariant
                self.wf(),
                i <= self@.images.len(),
                total <= i * 0x7fff_ffff_ffff_ffff,
                total + total_size_from(self@.images, i as int) == total_size(self@.images),
            decreases self@.images.len() - i,
        {
            proof {
                assert(self@.images[i as int] == self.images@[i as int]@);
                assert(0 <= self@.images[i as int].size <= 0x7fff_ffff_ffff_ffff);
                vstd::arithmetic::mul::lemma_mul_inequality(
                    i as int,
                    0xffff_ffff_ffff_ffff,
                    0x7fff_ffff_ffff_ffff,
                );
                assert(i * 0x7fff_ffff_ffff_ffff <= 0xffff_ffff_ffff_ffff * 0x7fff_ffff_ffff_ffff);
            }
            total = total + (self.images[i].size as u128);
            i = i + 1;
        }
        proof {
            assert(total_size_from(self@.images, self@.images.len() as int) == 0);
        }
        (count, total)
    }

    /// Whether some reference points at this image.
    fn has_reference_to(&self, image_id: i64) -> (r: bool)
        ensures
            r == image_has_ref(self@.refs, image_id as int),
    {
        let mut i: usize = 0;
        while i < self.references.len()
            invariant
                i <= self@.refs.len(),
                forall|k: int| 0 <= k < i ==> (#[trigger] self@.refs[k].image_id) != image_id,
            decreases self@.refs.len() - i,
        {
            if self.references[i].image_id == image_id {
                proof {
                    assert(self@.refs[i as int] == self.references@[i as int]@);
                    assert(self@.refs[i as int].image_id == image_id);
                }
                return true;
            }
            proof {
                assert(self@.refs[i as int] == self.references@[i as int]@);
            }
            i = i + 1;
        }
        false
    }
}

/// Byte-for-byte copy of a buffer.
fn clone_bytes(v: &Vec<u8>) -> (r: Vec<u8>)
    ensures
        r@ == v@,
{
    let mut r: Vec<u8> = Vec::new();
    let mut i: usize = 0;
    while i < v.len()
        invariant
            i <= v@.len(),
            r@ == v@.take(i as int),
        decreases v@.len() - i,
    {
        r.push(v[i]);
        proof {
            assert(r@ =~= v@.take(i as int + 1));
        }
        i = i + 1;
    }
    proof {
        assert(v@.take(v@.len() as int) =~= v@);
    }
    r
}

/// Scanning from `i`, the first match is at `n` when `n` matches and
/// nothing before it does.
pub proof fn lemma_idx_of_hash_from_finds(images: Seq<ImageRec>, h: Seq<char>, i: int, n: int)
    requires
        0 <= i <= n < images.len(),
        images[n].hash == h,
        forall|k: int| i <= k < n ==> (#[trigger] images[k].hash) != h,
    ensures
        idx_of_hash_from(images, h, i) == n,
    decreases n - i,
{
    if i < n {
        lemma_idx_of_hash_from_finds(images, h, i + 1, n);
    }
}

/// How many references link image `image_id` to conversation `c`.
pub open spec fn count_pairs_from(refs: Seq<RefRec>, image_id: int, c: Seq<char>, i: int) -> int
    decreases refs.len() - i,
{
    if i < 0 || i >= refs.len() {
        0
    } else {
        (if refs[i].image_id == image_id && refs[i].conversation_id == c {
            1int
        } else {
            0int
        }) + count_pairs_from(refs, image_id, c, i + 1)
    }
}

pub open spec fn count_pairs(refs: Seq<RefRec>, image_id: int, c: Seq<char>) -> int {
    count_pairs_from(refs, image_id, c, 0)
}

/// How many stored images carry digest `h`.
pub open spec fn count_hash_from(images: Seq<ImageRec>, h: Seq<char>, i: int) -> int
    decreases images.len() - i,
{
    if i < 0 || i >= images.len() {
        0
    } else {
        (if images[i].hash == h {
            1int
        } else {
            0int
        }) + count_hash_from(images, h, i + 1)
    }
}

pub open spec fn count_hash(images: Seq<ImageRec>, h: Seq<char>) -> int {
    count_hash_from(images, h, 0)
}

/// How many listed entries carry image id `image_id`.
pub open spec fn count_meta_id(metas: Seq<MetaRec>, image_id: int) -> int
    decreases metas.len(),
{
    if metas.len() == 0 {
        0
    } else {
        (if metas[0].id == image_id {
            1int
        } else {
            0int
        }) + count_meta_id(metas.drop_first(), image_id)
    }
}

/// Under pair uniqueness a pair occurs at most once, and exactly once when
/// it occurs at all.
pub proof fn lemma_count_pairs_from_props(refs: Seq<RefRec>, image_id: int, c: Seq<char>, i: int)
    requires
        0 <= i,
        forall|a: int, b: int|
            0 <= a < b < refs.len() ==> !((#[trigger] refs[a].image_id) == (
            #[trigger] refs[b].image_id) && refs[a].conversation_id == refs[b].conversation_id),
    ensures
        0 <= count_pairs_from(refs, image_id, c, i) <= 1,
        count_pairs_from(refs, image_id, c, i) == 1 <==> exists|k: int|
            i <= k < refs.len() && (#[trigger] refs[k].image_id) == image_id
                && refs[k].conversation_id == c,
    decreases refs.len() - i,
{
    if 0 <= i < refs.len() {
        lemma_count_pairs_from_props(refs, image_id, c, i + 1);
        if refs[i].image_id == image_id && refs[i].conversation_id == c {
            assert forall|k: int|
                i + 1 <= k < refs.len() implies !((#[trigger] refs[k].image_id) == image_id
                && refs[k].conversation_id == c) by {
                assert(!(refs[i].image_id == refs[k].image_id && refs[i].conversation_id
                    == refs[k].conversation_id));
            }
            assert(count_pairs_from(refs, image_id, c, i + 1) == 0);
        }
    }
}

/// Under hash uniqueness a digest occurs at most once, and exactly once
/// when it occurs at all.
pub proof fn lemma_count_hash_from_props(images: Seq<ImageRec>, h: Seq<char>, i: int)
    requires
        0 <= i,
        forall|a: int, b: int|
            0 <= a < b < images.len() ==> (#[trigger] images[a].hash) != (
            #[trigger] images[b].hash),
    ensures
        0 <= count_hash_from(images, h, i) <= 1,
        count_hash_from(images, h, i) == 1 <==> exists|k: int|
            i <= k < images.len() && (#[trigger] images[k].hash) == h,
    decreases images.len() - i,
{
    if 0 <= i < images.len() {
        lemma_count_hash_from_props(images, h, i + 1);
        if images[i].hash == h {
            assert forall|k: int| i + 1 <= k < images.len() implies (#[trigger] images[k].hash)
                != h by {
                assert(images[i].hash != images[k].hash);
            }
            assert(count_hash_from(images, h, i + 1) == 0);
        }
    }
}

/// A conversation's listing mentions an image as often as the reference
/// ledger links that image to the conversation.
pub proof fn lemma_conversation_count(
    images: Seq<ImageRec>,
    refs: Seq<RefRec>,
    c: Seq<char>,
    image_id: int,
    i: int,
)
    requires
        0 <= i,
        forall|k: int|
            0 <= k < refs.len() ==> has_image_id(images, (#[trigger] refs[k].image_id)),
    ensures
        count_meta_id(conversation_images_from(images, refs, c, i), image_id) == count_pairs_from(
            refs,
            image_id,
            c,
            i,
        ),
    decreases refs.len() - i,
{
    if 0 <= i < refs.len() {
        lemma_conversation_count(images, refs, c, image_id, i + 1);
        let rest = conversation_images_from(images, refs, c, i + 1);
        if refs[i].conversation_id == c {
            assert(has_image_id(images, refs[i].image_id));
            lemma_idx_of_id_from_props(images, refs[i].image_id, 0);
            if idx_of_id(images, refs[i].image_id) == -1 {
                let w = choose|w: int|
                    0 <= w < images.len() && (#[trigger] images[w].id) == refs[i].image_id;
                assert(false);
            }
            let m = meta_of(images[idx_of_id(images, refs[i].image_id)]);
            assert(m.id == refs[i].image_id);
            assert(conversation_images_from(images, refs, c, i) == seq![m] + rest);
            assert((seq![m] + rest).drop_first() =~= rest);
            assert((seq![m] + rest)[0] == m);
        }
    }
}

/// Shifting past an element prepended to the reference ledger leaves a
/// conversation's listing unchanged.
proof fn lemma_conversation_images_shift(
    images: Seq<ImageRec>,
    x: RefRec,
    rest: Seq<RefRec>,
    c: Seq<char>,
    j: int,
)
    requires
        0 <= j,
    ensures
        conversation_images_from(images, seq![x] + rest, c, j + 1) == conversation_images_from(
            images,
            rest,
            c,
            j,
        ),
    decreases rest.len() - j,
{
    if j < rest.len() {
        lemma_conversation_images_shift(images, x, rest, c, j + 1);
        assert((seq![x] + rest)[j + 1] == rest[j]);
    }
}

/// A ledger with no reference for conversation `c` lists nothing for it.
proof fn lemma_conversation_images_none(
    images: Seq<ImageRec>,
    refs: Seq<RefRec>,
    c: Seq<char>,
    i: int,
)
    requires
        0 <= i,
        forall|k: int| 0 <= k < refs.len() ==> (#[trigger] refs[k].conversation_id) != c,
    ensures
        conversation_images_from(images, refs, c, i) == Seq::<MetaRec>::empty(),
    decreases refs.len() - i,
{
    if 0 <= i < refs.len() {
        lemma_conversation_images_none(images, refs, c, i + 1);
    }
}

/// Deleting one conversation's references removes references only for that
/// conversation: afterwards its own listing is empty, and every other
/// conversation's listing is exactly what it was.
pub proof fn lemma_delete_only_target(
    images: Seq<ImageRec>,
    refs: Seq<RefRec>,
    c1: Seq<char>,
    c2: Seq<char>,
)
    requires
        c1 != c2,
        forall|a: int, b: int|
            0 <= a < b < refs.len() ==> (#[trigger] refs[a].id) < (#[trigger] refs[b].id),
        forall|a: int, b: int|
            0 <= a < b < refs.len() ==> !((#[trigger] refs[a].image_id) == (
            #[trigger] refs[b].image_id) && refs[a].conversation_id == refs[b].conversation_id),
    ensures
        conversation_images_model(images, kept_refs(refs, c1), c2) == conversation_images_model(
            images,
            refs,
            c2,
        ),
        conversation_images_model(images, kept_refs(refs, c1), c1) == Seq::<MetaRec>::empty(),
{
    lemma_kept_refs_props(refs, c1, 0);
    lemma_conversation_images_none(images, kept_refs(refs, c1), c1, 0);
    lemma_delete_other_unchanged(images, refs, c1, c2, 0);
}

/// The surviving suffix of the reference ledger lists, for another
/// conversation, exactly what the original suffix listed.
proof fn lemma_delete_other_unchanged(
    images: Seq<ImageRec>,
    refs: Seq<RefRec>,
    c1: Seq<char>,
    c2: Seq<char>,
    i: int,
)
    requires
        c1 != c2,
        0 <= i,
    ensures
        conversation_images_model(images, kept_refs_from(refs, c1, i), c2)
            == conversation_images_from(images, refs, c2, i),
    decreases refs.len() - i,
{
    if 0 <= i < refs.len() {
        lemma_delete_other_unchanged(images, refs, c1, c2, i + 1);
        let rest = kept_refs_from(refs, c1, i + 1);
        if refs[i].conversation_id == c1 {
            assert(refs[i].conversation_id != c2);
        } else {
            let s = seq![refs[i]] + rest;
            assert(s[0] == refs[i]);
            lemma_conversation_images_shift(images, refs[i], rest, c2, 0);
            if refs[i].conversation_id == c2 {
                let m = meta_of(images[idx_of_id(images, refs[i].image_id)]);
                assert(conversation_images_model(images, s, c2) == seq![m]
                    + conversation_images_from(images, s, c2, 1));
            }
        }
    }
}

/// The orphan reaper never deletes an image that still has a live
/// reference, everything it keeps has one, and an image with no reference
/// never survives.
pub proof fn lemma_reap_spares_referenced(v: StoreView)
    requires
        store_inv(v),
    ensures
        forall|l: int|
            0 <= l < v.images.len() && image_has_ref(v.refs, (#[trigger] v.images[l].id))
                ==> kept_images(v.images, v.refs).contains(v.images[l]),
        forall|a: int|
            0 <= a < kept_images(v.images, v.refs).len() ==> image_has_ref(
                v.refs,
                (#[trigger] kept_images(v.images, v.refs)[a].id),
            ),
        forall|l: int|
            0 <= l < v.images.len() && !image_has_ref(v.refs, (#[trigger] v.images[l].id))
                ==> !kept_images(v.images, v.refs).contains(v.images[l]),
{
    lemma_kept_images_props(v.images, v.refs, 0);
    let kept = kept_images(v.images, v.refs);
    assert forall|l: int|
        0 <= l < v.images.len() && !image_has_ref(v.refs, (#[trigger] v.images[l].id)) implies !kept
        .contains(v.images[l]) by {
        if kept.contains(v.images[l]) {
            let a = choose|a: int| 0 <= a < kept.len() && kept[a] == v.images[l];
            assert(image_has_ref(v.refs, kept[a].id));
        }
    }
}

/// Linking an image to a conversation changes nothing but possibly that one
/// reference: the images are untouched, the pair afterwards exists, and
/// every pair that existed before still exists.
pub proof fn lemma_add_ref_model_props(
    v: StoreView,
    image_id: int,
    c: Seq<char>,
    t: Seq<char>,
)
    requires
        store_inv(v),
        has_image_id(v.images, image_id),
    ensures
        store_inv(add_ref_model(v, image_id, c, t)),
        add_ref_model(v, image_id, c, t).images == v.images,
        add_ref_model(v, image_id, c, t).next_image_id == v.next_image_id,
        has_pair(add_ref_model(v, image_id, c, t).refs, image_id, c),
        forall|other_id: int, d: Seq<char>|
            #[trigger] has_pair(v.refs, other_id, d) ==> has_pair(
                add_ref_model(v, image_id, c, t).refs,
                other_id,
                d,
            ),
{
    let v1 = add_ref_model(v, image_id, c, t);
    if has_pair(v.refs, image_id, c) {
    } else {
        let added_ref = RefRec { id: v.next_ref_id, image_id, conversation_id: c, created_at: t };
        assert(v1.refs == v.refs.push(added_ref));
        assert(v1.refs[v.refs.len() as int] == added_ref);
        assert(v1.refs[v.refs.len() as int].image_id == image_id);
        assert(v1.refs[v.refs.len() as int].conversation_id == c);
        assert(has_pair(v1.refs, image_id, c));
        assert(store_inv(v1)) by {
            assert forall|a: int, b: int| 0 <= a < b < v1.refs.len() implies (
            #[trigger] v1.refs[a].id) < (#[trigger] v1.refs[b].id) by {
                if b == v1.refs.len() - 1 {
                    assert(v1.refs[a] == v.refs[a]);
                }
            }
            assert forall|a: int, b: int| 0 <= a < b < v1.refs.len() implies !((
            #[trigger] v1.refs[a].image_id) == (#[trigger] v1.refs[b].image_id)
                && v1.refs[a].conversation_id == v1.refs[b].conversation_id) by {
                if b == v1.refs.len() - 1 {
                    assert(v1.refs[a] == v.refs[a]);
                    if v.refs[a].image_id == image_id && v.refs[a].conversation_id == c {
                        assert(has_pair(v.refs, image_id, c));
                    }
                }
            }
            assert forall|a: int| 0 <= a < v1.refs.len() implies has_image_id(
                v1.images,
                (#[trigger] v1.refs[a].image_id),
            ) by {
                if a < v1.refs.len() - 1 {
                    assert(v1.refs[a] == v.refs[a]);
                    assert(has_image_id(v.images, v.refs[a].image_id));
                }
            }
        }
        assert forall|other_id: int, d: Seq<char>|
            #[trigger] has_pair(v.refs, other_id, d) implies has_pair(v1.refs, other_id, d) by {
            let k = choose|k: int|
                0 <= k < v.refs.len() && (#[trigger] v.refs[k].image_id) == other_id
                    && v.refs[k].conversation_id == d;
            assert(v1.refs[k] == v.refs[k]);
        }
    }
}

/// A hash-and-store leaves the store well formed; afterwards the digest of
/// the bytes is stored exactly at one row, that row's metadata is what the
/// call returned, and the conversation references that row.
pub proof fn lemma_store_image_model_props(
    v: StoreView,
    data: Seq<u8>,
    mime_type: Seq<char>,
    c: Seq<char>,
    t: Seq<char>,
)
    requires
        store_inv(v),
    ensures
        store_inv(store_image_model(v, data, mime_type, c, t)),
        idx_of_hash(store_image_model(v, data, mime_type, c, t).images, sha256_hex_of(data)) >= 0,
        meta_of(
            store_image_model(v, data, mime_type, c, t).images[idx_of_hash(
                store_image_model(v, data, mime_type, c, t).images,
                sha256_hex_of(data),
            )],
        ) == store_image_result(v, data, mime_type, c, t),
        has_pair(
            store_image_model(v, data, mime_type, c, t).refs,
            store_image_result(v, data, mime_type, c, t).id,
            c,
        ),
{
    let h = sha256_hex_of(data);
    let j = idx_of_hash(v.images, h);
    let v1 = store_image_model(v, data, mime_type, c, t);
    let r1 = store_image_result(v, data, mime_type, c, t);
    lemma_idx_of_hash_from_props(v.images, h, 0);
    if j >= 0 {
        assert(has_image_id(v.images, v.images[j].id));
        lemma_add_ref_model_props(v, v.images[j].id, c, t);
        assert(v1.images == v.images);
        assert(idx_of_hash(v1.images, h) == j);
        assert(r1 == meta_of(v.images[j]));
    } else {
        let img = ImageRec {
            id: v.next_image_id,
            hash: h,
            data,
            mime_type,
            size: data.len() as int,
            created_at: t,
        };
        let vmid = StoreView { images: v.images.push(img), next_image_id: v.next_image_id + 1, ..v };
        assert(vmid.images[v.images.len() as int] == img);
        assert(store_inv(vmid)) by {
            assert forall|a: int, b: int| 0 <= a < b < vmid.images.len() implies (
            #[trigger] vmid.images[a].id) < (#[trigger] vmid.images[b].id) by {
                if b == vmid.images.len() - 1 {
                    assert(vmid.images[a] == v.images[a]);
                }
            }
            assert forall|a: int, b: int| 0 <= a < b < vmid.images.len() implies (
            #[trigger] vmid.images[a].hash) != (#[trigger] vmid.images[b].hash) by {
                if b == vmid.images.len() - 1 {
                    assert(vmid.images[a] == v.images[a]);
                    assert(v.images[a].hash != h);
                }
            }
            assert forall|a: int| 0 <= a < vmid.refs.len() implies has_image_id(
                vmid.images,
                (#[trigger] vmid.refs[a].image_id),
            ) by {
                assert(has_image_id(v.images, v.refs[a].image_id));
                let w = choose|w: int|
                    0 <= w < v.images.len() && (#[trigger] v.images[w].id) == v.refs[a].image_id;
                assert(vmid.images[w] == v.images[w]);
            }
        }
        assert(vmid.images[v.images.len() as int].id == v.next_image_id);
        assert(has_image_id(vmid.images, v.next_image_id));
        lemma_add_ref_model_props(vmid, v.next_image_id, c, t);
        assert(v1.images == vmid.images);
        lemma_idx_of_hash_from_finds(v1.images, h, 0, v.images.len() as int);
        assert(meta_of(img) == r1);
    }
}

/// Storing the same bytes twice is idempotent: the second call creates no
/// new image and returns exactly what the first call returned — the same
/// id, and the first call's stored bytes, mime type and size (the second
/// call's mime type is discarded; dedup is authoritative).
pub proof fn lemma_store_image_dedup(
    v: StoreView,
    data: Seq<u8>,
    m1: Seq<char>,
    c1: Seq<char>,
    t1: Seq<char>,
    m2: Seq<char>,
    c2: Seq<char>,
    t2: Seq<char>,
)
    requires
        store_inv(v),
    ensures
        ({
            let v1 = store_image_model(v, data, m1, c1, t1);
            store_image_result(v1, data, m2, c2, t2) == store_image_result(v, data, m1, c1, t1)
                && store_image_model(v1, data, m2, c2, t2).images == v1.images
        }),
{
    let h = sha256_hex_of(data);
    let v1 = store_image_model(v, data, m1, c1, t1);
    let r1 = store_image_result(v, data, m1, c1, t1);
    lemma_store_image_model_props(v, data, m1, c1, t1);
    let j2 = idx_of_hash(v1.images, h);
    assert(j2 >= 0);
    assert(store_image_result(v1, data, m2, c2, t2) == meta_of(v1.images[j2]));
    assert(v1.images[j2].id == r1.id);
    assert(has_image_id(v1.images, v1.images[j2].id));
    lemma_add_ref_model_props(v1, v1.images[j2].id, c2, t2);
}

/// After storing the same bytes for two different conversations, each
/// conversation's listing mentions the image exactly once, and exactly one
/// stored row carries the digest of the bytes.
pub proof fn lemma_store_image_two_conversations(
    v: StoreView,
    data: Seq<u8>,
    m1: Seq<char>,
    c1: Seq<char>,
    t1: Seq<char>,
    m2: Seq<char>,
    c2: Seq<char>,
    t2: Seq<char>,
)
    requires
        store_inv(v),
        c1 != c2,
    ensures
        ({
            let v1 = store_image_model(v, data, m1, c1, t1);
            let v2 = store_image_model(v1, data, m2, c2, t2);
            let r1 = store_image_result(v, data, m1, c1, t1);
            &&& count_meta_id(conversation_images_model(v2.images, v2.refs, c1), r1.id) == 1
            &&& count_meta_id(conversation_images_model(v2.images, v2.refs, c2), r1.id) == 1
            &&& count_hash(v2.images, sha256_hex_of(data)) == 1
        }),
{
    let h = sha256_hex_of(data);
    let v1 = store_image_model(v, data, m1, c1, t1);
    let v2 = store_image_model(v1, data, m2, c2, t2);
    let r1 = store_image_result(v, data, m1, c1, t1);
    let r2 = store_image_result(v1, data, m2, c2, t2);
    lemma_store_image_model_props(v, data, m1, c1, t1);
    lemma_store_image_model_props(v1, data, m2, c2, t2);
    lemma_store_image_dedup(v, data, m1, c1, t1, m2, c2, t2);
    assert(r2.id == r1.id);
    assert(has_pair(v2.refs, r1.id, c2));
    let j2 = idx_of_hash(v1.images, h);
    lemma_add_ref_model_props(v1, v1.images[j2].id, c2, t2);
    assert(has_pair(v1.refs, r1.id, c1));
    assert(has_pair(v2.refs, r1.id, c1));
    lemma_count_pairs_from_props(v2.refs, r1.id, c1, 0);
    lemma_count_pairs_from_props(v2.refs, r1.id, c2, 0);
    assert(count_pairs(v2.refs, r1.id, c1) == 1);
    assert(count_pairs(v2.refs, r1.id, c2) == 1);
    lemma_conversation_count(v2.images, v2.refs, c1, r1.id, 0);
    lemma_conversation_count(v2.images, v2.refs, c2, r1.id, 0);
    lemma_idx_of_hash_from_props(v2.images, h, 0);
    assert(v2.images[idx_of_hash(v2.images, h)].hash == h);
    lemma_count_hash_from_props(v2.images, h, 0);
}

} // verus!
