//! The registry of blob images: for each key the command buffer to draw
//! and the region of it that is in view.

use crate::blob_data::{BlobData, BlobDataIterator};
use crate::command::DrawCommand;
use crate::format::{
    decodable_prefix, decodes_to, law_decode_of_encode, lemma_command_len, lemma_decode_is,
    spec_decode, spec_encode, spec_encode_commands,
};
use crate::geometry::{BlobDirtyRect, DeviceIntRect};
use std::collections::HashMap;
use std::sync::Arc;
use vstd::prelude::*;

verus! {

broadcast use vstd::std_specs::hash::group_hash_axioms;

/// The side of the square tiles into which an image is cut, in pixels.
pub type TileSize = u16;

/// The identity of a blob image: the namespace of whoever made it, and its
/// number in that namespace.
#[derive(Clone, Copy, Debug, PartialEq, Eq, Hash, Structural)]
pub struct BlobImageKey {
    pub namespace: u32,
    pub key: u32,
}

impl BlobImageKey {
    /// Both parts in one number: the namespace above, the key below.
    pub open spec fn spec_packed(&self) -> u64 {
        (self.namespace * 0x1_0000_0000 + self.key) as u64
    }

    #[verifier::when_used_as_spec(spec_packed)]
    pub fn packed(&self) -> (packed: u64)
        ensures
            packed == self.spec_packed(),
    {
        self.namespace as u64 * 0x1_0000_0000 + self.key as u64
    }

    /// Two keys with the same packed number are the same key.
    pub proof fn lemma_packed_injective(a: BlobImageKey, b: BlobImageKey)
        requires
            a.spec_packed() == b.spec_packed(),
        ensures
            a == b,
    {
    }
}

/// What the registry holds for one image.
#[derive(Debug, Clone)]
pub struct BlobCommand {
    data: Arc<Vec<u8>>,
    visible_rect: DeviceIntRect,
    tile_size: TileSize,
}

/// The mathematical value of a [`BlobCommand`].
pub struct BlobCommandView {
    pub data: Seq<u8>,
    pub visible_rect: DeviceIntRect,
    pub tile_size: TileSize,
}

impl View for BlobCommand {
    type V = BlobCommandView;

    closed spec fn view(&self) -> BlobCommandView {
        BlobCommandView {
            data: self.data@,
            visible_rect: self.visible_rect,
            tile_size: self.tile_size,
        }
    }
}

impl BlobCommand {
    /// The command buffer of the image. It is shared, not copied.
    pub fn data(&self) -> (data: &Arc<Vec<u8>>)
        ensures
            data@ == self@.data,
    {
        &self.data
    }

    /// The part of the image that is in view.
    pub fn visible_rect(&self) -> (rect: DeviceIntRect)
        ensures
            rect == self@.visible_rect,
    {
        self.visible_rect
    }

    /// The tile size that the image was registered with.
    pub fn tile_size(&self) -> (tile_size: TileSize)
        ensures
            tile_size == self@.tile_size,
    {
        self.tile_size
    }
}

/// Whether every pixel that was in view and still is has been declared
/// dirty.
pub open spec fn preserved_is_dirty(
    old_visible: DeviceIntRect,
    new_visible: DeviceIntRect,
    dirty: BlobDirtyRect,
) -> bool {
    forall|x: int, y: int|
        old_visible.contains(x, y) && #[trigger] new_visible.contains(x, y) ==> dirty.contains(
            x,
            y,
        )
}

/// The registry after an update of `key`. Nothing changes where `key` is
/// not registered or `data` is no command buffer. Otherwise the entry holds
/// the commands of `data` if every pixel that stays in view is dirty, and no
/// command if not; and `visible_rect` is its region in view.
pub open spec fn spec_update(
    registry: Map<BlobImageKey, BlobCommandView>,
    key: BlobImageKey,
    data: Seq<u8>,
    visible_rect: DeviceIntRect,
    dirty_rect: BlobDirtyRect,
) -> Map<BlobImageKey, BlobCommandView> {
    if !registry.contains_key(key) {
        registry
    } else {
        match spec_decode(data) {
            None => registry,
            Some(commands) => {
                let kept = if preserved_is_dirty(
                    registry[key].visible_rect,
                    visible_rect,
                    dirty_rect,
                ) {
                    commands
                } else {
                    Seq::<DrawCommand>::empty()
                };
                registry.insert(
                    key,
                    BlobCommandView {
                        data: spec_encode(kept),
                        visible_rect,
                        tile_size: registry[key].tile_size,
                    },
                )
            },
        }
    }
}

/// The rule of `update` for a registered image and a buffer that holds
/// `commands`: afterwards the image has all of `commands` if the dirty
/// region covers every pixel that was in view and still is, and none of
/// them if not; its region in view is the new one; every other image is as
/// it was.
pub proof fn law_update_retention(
    registry: Map<BlobImageKey, BlobCommandView>,
    key: BlobImageKey,
    data: Seq<u8>,
    visible_rect: DeviceIntRect,
    dirty_rect: BlobDirtyRect,
    commands: Seq<DrawCommand>,
)
    requires
        registry.contains_key(key),
        decodes_to(data, commands),
    ensures
        ({
            let after = spec_update(registry, key, data, visible_rect, dirty_rect);
            let covered = preserved_is_dirty(registry[key].visible_rect, visible_rect, dirty_rect);
            &&& after.dom() == registry.dom()
            &&& after[key].visible_rect == visible_rect
            &&& after[key].tile_size == registry[key].tile_size
            &&& covered ==> spec_decode(after[key].data) == Some(commands)
            &&& !covered ==> spec_decode(after[key].data) == Some(Seq::<DrawCommand>::empty())
            &&& forall|other: BlobImageKey|
                other != key && registry.contains_key(other) ==> #[trigger] after[other]
                    == registry[other]
        }),
{
    lemma_decode_is(data, commands);
    law_decode_of_encode(commands);
    law_decode_of_encode(Seq::<DrawCommand>::empty());
}

/// An update of an image that is not registered, or with bytes that are no
/// command buffer, changes nothing.
pub proof fn law_update_without_effect(
    registry: Map<BlobImageKey, BlobCommandView>,
    key: BlobImageKey,
    data: Seq<u8>,
    visible_rect: DeviceIntRect,
    dirty_rect: BlobDirtyRect,
)
    requires
        !registry.contains_key(key) || spec_decode(data) is None,
    ensures
        spec_update(registry, key, data, visible_rect, dirty_rect) == registry,
{
}

/// Deleting an image that is not registered changes nothing, so deleting
/// twice is deleting once.
pub proof fn law_delete_idempotent(registry: Map<BlobImageKey, BlobCommandView>, key: BlobImageKey)
    ensures
        !registry.contains_key(key) ==> registry.remove(key) == registry,
        registry.remove(key).remove(key) == registry.remove(key),
{
}

/// The registry with the operations that change it. One value of this type
/// is the one owner of all entries.
#[derive(Debug)]
pub struct ServoBlobImageHandler {
    enable_multithreading: bool,
    blob_commands: HashMap<u64, BlobCommand>,
}

impl View for ServoBlobImageHandler {
    type V = Map<BlobImageKey, BlobCommandView>;

    /// The entry of each registered key.
    closed spec fn view(&self) -> Map<BlobImageKey, BlobCommandView> {
        Map::new(
            |key: BlobImageKey| self.blob_commands@.contains_key(key.spec_packed()),
            |key: BlobImageKey| self.blob_commands@[key.spec_packed()]@,
        )
    }
}

impl ServoBlobImageHandler {
    /// Whether batches may be rasterized by several workers at once.
    pub closed spec fn spec_multithreading_enabled(&self) -> bool {
        self.enable_multithreading
    }

    /// A registry without entries, with multithreading enabled.
    pub fn new() -> (handler: ServoBlobImageHandler)
        ensures
            handler@ == Map::<BlobImageKey, BlobCommandView>::empty(),
            handler.spec_multithreading_enabled(),
    {
        let handler = ServoBlobImageHandler {
            enable_multithreading: true,
            blob_commands: HashMap::new(),
        };
        handler
    }

    /// Registers `data` under `key`, in the place of what was registered
    /// under it, if anything.
    pub fn add(
        &mut self,
        key: BlobImageKey,
        data: Arc<Vec<u8>>,
        visible_rect: &DeviceIntRect,
        tile_size: TileSize,
    )
        ensures
            final(self)@ == old(self)@.insert(
                key,
                BlobCommandView { data: data@, visible_rect: *visible_rect, tile_size },
            ),
            final(self).spec_multithreading_enabled() == old(self).spec_multithreading_enabled(),
    {
        let entry = BlobCommand { data, visible_rect: *visible_rect, tile_size };
        self.put(key, entry);
    }

    /// Puts `entry` in the slot of `key`, whole.
    fn put(&mut self, key: BlobImageKey, entry: BlobCommand)
        ensures
            final(self)@ == old(self)@.insert(key, entry@),
            final(self).spec_multithreading_enabled() == old(self).spec_multithreading_enabled(),
    {
        self.blob_commands.insert(key.packed(), entry);
        proof {
            assert forall|other: BlobImageKey| other != key implies other.spec_packed()
                != key.spec_packed() by {
                if other.spec_packed() == key.spec_packed() {
                    BlobImageKey::lemma_packed_injective(other, key);
                }
            }
        }
    }

    /// Brings the image under `key` up to date after a change of what is
    /// in view. The commands of `data` are kept, all or none of them: all
    /// if `dirty_rect` covers every pixel that was in view and still is,
    /// none if not. The test is the same for every command. Nothing happens
    /// where `key` is not registered, or `data` is no command buffer.
    pub fn update(
        &mut self,
        key: BlobImageKey,
        data: Arc<Vec<u8>>,
        visible_rect: &DeviceIntRect,
        dirty_rect: &BlobDirtyRect,
    )
        ensures
            final(self)@ == spec_update(old(self)@, key, data@, *visible_rect, *dirty_rect),
            final(self).spec_multithreading_enabled() == old(self).spec_multithreading_enabled(),
    {
        let (old_visible, tile_size) = match self.get(key) {
            None => {
                return ;
            },
            Some(command) => (command.visible_rect, command.tile_size),
        };
        let preserved_rect = old_visible.intersection_unchecked(visible_rect);
        let keep = dirty_rect.contains_box(&preserved_rect);
        assert(keep == preserved_is_dirty(old_visible, *visible_rect, *dirty_rect)) by {
            if keep {
                assert forall|x: int, y: int|
                    old_visible.contains(x, y) && #[trigger] visible_rect.contains(
                        x,
                        y,
                    ) implies dirty_rect.contains(x, y) by {
                    assert(preserved_rect.contains(x, y));
                }
            }
        }
        let mut new_blob_data = BlobData::new();
        let mut new_blob_data_iter = BlobDataIterator::from_raw(data.as_slice());
        let mut exhausted = false;
        while !exhausted
            invariant
                new_blob_data_iter.wf(),
                new_blob_data_iter.bytes() == data@,
                new_blob_data.wf(),
                new_blob_data@ == if keep {
                    new_blob_data_iter.yielded()
                } else {
                    Seq::<DrawCommand>::empty()
                },
                data@.len() >= crate::format::HEADER_LEN ==> decodable_prefix(
                    data@,
                    new_blob_data_iter.yielded(),
                ),
                exhausted && spec_decode(data@) is Some ==> spec_decode(data@) == Some(
                    new_blob_data_iter.yielded(),
                ),
            decreases
                    data@.len() - spec_encode_commands(new_blob_data_iter.yielded()).len(),
                    if exhausted { 0int } else { 1int },
        {
            let ghost seen = new_blob_data_iter.yielded();
            match new_blob_data_iter.next() {
                Some(blob_data) => {
                    proof {
                        lemma_command_len(blob_data@);
                        assert(seen.push(blob_data@).drop_last() =~= seen);
                    }
                    if keep {
                        new_blob_data.new_entry(blob_data);
                    }
                },
                None => {
                    exhausted = true;
                },
            }
        }
        if !new_blob_data_iter.finished() {
            return ;
        }
        let entry = BlobCommand {
            data: Arc::new(new_blob_data.take()),
            visible_rect: *visible_rect,
            tile_size,
        };
        self.put(key, entry);
    }

    /// Removes the image under `key`. Nothing happens where there is none.
    pub fn delete(&mut self, key: BlobImageKey)
        ensures
            final(self)@ == old(self)@.remove(key),
            !old(self)@.contains_key(key) ==> final(self)@ == old(self)@,
            final(self).spec_multithreading_enabled() == old(self).spec_multithreading_enabled(),
    {
        let packed: u64 = key.packed();
        self.blob_commands.remove(&packed);
        proof {
            assert forall|other: BlobImageKey| other != key implies other.spec_packed()
                != key.spec_packed() by {
                if other.spec_packed() == key.spec_packed() {
                    BlobImageKey::lemma_packed_injective(other, key);
                }
            }
        }
    }

    /// Says whether batches may be rasterized by several workers at once.
    /// The registry is left as it is.
    pub fn enable_multithreading(&mut self, enable: bool)
        ensures
            final(self).spec_multithreading_enabled() == enable,
            final(self)@ == old(self)@,
    {
        self.enable_multithreading = enable;
    }

    /// Whether batches may be rasterized by several workers at once.
    #[verifier::when_used_as_spec(spec_multithreading_enabled)]
    pub fn multithreading_enabled(&self) -> (enabled: bool)
        ensures
            enabled == self.spec_multithreading_enabled(),
    {
        self.enable_multithreading
    }

    /// A rasterizer that reads this registry.
    pub fn create_blob_rasterizer(&self) -> (rasterizer: crate::rasterizer::ServoBlobRasterizer<'_>)
        ensures
            rasterizer.registry() == self@,
    {
        crate::rasterizer::ServoBlobRasterizer::new(self)
    }

    /// The entry of `key`, if it is registered.
    pub fn get(&self, key: BlobImageKey) -> (entry: Option<&BlobCommand>)
        ensures
            match entry {
                Some(command) => self@.contains_key(key) && self@[key] == command@,
                None => !self@.contains_key(key),
            },
    {
        let packed: u64 = key.packed();
        self.blob_commands.get(&packed)
    }
}

} // verus!
