//! A scene as a host drives it: sprites are named by the order in which the
//! host added them.

use vstd::prelude::*;
use crate::buffer::image_len;
use crate::format::ImageFormat;
use crate::pixel::{filled, unpacked, Rgba};
use crate::samples::{grid_of, SampleMap};
use crate::scene::{
    first_with_id, frame, has_z, id_absent, is_stable_z_sort, Scene, SceneState,
};
use crate::sprite::{ImageSprite, SpriteState};

verus! {

/// What a [`WasmScene`] holds.
pub struct WasmSceneState {
    pub scene: SceneState,
    /// The id of each sprite, in the order in which the host added them: a
    /// sprite's place here is the index by which the host names it.
    pub sprite_ids: Seq<u64>,
}

impl WasmSceneState {
    /// The scene is well formed, and the indices name its sprites one for
    /// one.
    pub open spec fn wf(self) -> bool {
        &&& self.scene.wf()
        &&& self.sprite_ids.len() == self.scene.layers.len()
        &&& forall|k: int|
            0 <= k < self.sprite_ids.len() ==> !id_absent(
                self.scene.layers,
                #[trigger] self.sprite_ids[k],
            )
        &&& forall|k: int, l: int|
            0 <= k < l < self.sprite_ids.len() ==> self.sprite_ids[k] != self.sprite_ids[l]
    }

    /// The id of the sprite that the host names by `index`, if it names one.
    pub open spec fn id_at(self, index: int) -> Option<u64> {
        if 0 <= index < self.sprite_ids.len() {
            Some(self.sprite_ids[index])
        } else {
            None
        }
    }
}

/// The state after sprite `i` of the scene has become `sprite`.
pub open spec fn with_layer(state: WasmSceneState, i: int, sprite: SpriteState) -> WasmSceneState {
    WasmSceneState {
        scene: SceneState { layers: state.scene.layers.update(i, sprite), ..state.scene },
        ..state
    }
}

/// A sprite that is among `layers` is still among them after a stable sort
/// by z-order, and none is added.
pub proof fn lemma_sort_keeps_ids(sorted: Seq<SpriteState>, layers: Seq<SpriteState>, id: u64)
    requires
        is_stable_z_sort(sorted, layers),
    ensures
        id_absent(sorted, id) <==> id_absent(layers, id),
{
    if !id_absent(layers, id) {
        let i = choose|i: int| 0 <= i < layers.len() && layers[i].id == id;
        lemma_kept_by_sort(sorted, layers, i);
    }
    if !id_absent(sorted, id) {
        let i = choose|i: int| 0 <= i < sorted.len() && sorted[i].id == id;
        assert(layers.filter(has_z(sorted[i].z_order)) == sorted.filter(has_z(sorted[i].z_order)));
        sorted.lemma_filter_contains(has_z(sorted[i].z_order), i);
        layers.lemma_filter_contains_rev(has_z(sorted[i].z_order), sorted[i]);
    }
}

/// Sprite `i` of `layers` stands somewhere in `sorted`.
proof fn lemma_kept_by_sort(sorted: Seq<SpriteState>, layers: Seq<SpriteState>, i: int)
    requires
        is_stable_z_sort(sorted, layers),
        0 <= i < layers.len(),
    ensures
        sorted.contains(layers[i]),
{
    let z = layers[i].z_order;
    assert(sorted.filter(has_z(z)) == layers.filter(has_z(z)));
    layers.lemma_filter_contains(has_z(z), i);
    sorted.lemma_filter_contains_rev(has_z(z), layers[i]);
}

/// A scene whose sprites the host addresses by index. A call with an index
/// that names no sprite changes nothing.
#[derive(Debug)]
pub struct WasmScene {
    scene: Scene,
    sprite_ids: Vec<u64>,
}

impl View for WasmScene {
    type V = WasmSceneState;

    closed spec fn view(&self) -> WasmSceneState {
        WasmSceneState { scene: self.scene@, sprite_ids: self.sprite_ids@ }
    }
}

impl WasmScene {
    /// The state is well formed.
    pub open spec fn wf(&self) -> bool {
        self@.wf()
    }

    /// Creates an empty scene with an opaque black background.
    pub fn new(width: u32, height: u32) -> (scene: WasmScene)
        requires
            image_len(width, height, ImageFormat::Rgba) <= usize::MAX,
        ensures
            scene.wf(),
            scene@.sprite_ids == Seq::<u64>::empty(),
            scene@.scene == (SceneState {
                width,
                height,
                background: Rgba { r: 0, g: 0, b: 0, a: 255 },
                raster: Seq::new(image_len(width, height, ImageFormat::Rgba), |i: int| 0u8),
                layers: Seq::empty(),
                needs_sort: false,
                next_id: 0,
            }),
    {
        WasmScene { scene: Scene::new(width, height), sprite_ids: Vec::new() }
    }

    /// Returns the scene.
    pub fn scene(&self) -> (scene: &Scene)
        ensures
            scene@ == self@.scene,
    {
        &self.scene
    }

    /// Returns the width in pixels.
    pub fn width(&self) -> (w: u32)
        ensures
            w == self@.scene.width,
    {
        self.scene.width()
    }

    /// Returns the height in pixels.
    pub fn height(&self) -> (h: u32)
        ensures
            h == self@.scene.height,
    {
        self.scene.height()
    }

    /// Returns the length of the raster in bytes.
    pub fn len(&self) -> (n: usize)
        ensures
            n == self@.scene.raster.len(),
    {
        self.scene.len()
    }

    /// Returns the raster.
    pub fn buffer(&self) -> (b: &[u8])
        ensures
            b@ == self@.scene.raster,
    {
        self.scene.buffer()
    }

    /// Returns whether the host has added no sprite.
    pub fn is_empty(&self) -> (e: bool)
        ensures
            e <==> self@.sprite_ids.len() == 0,
    {
        self.sprite_ids.is_empty()
    }

    /// Returns the number of sprites.
    pub fn sprite_count(&self) -> (n: usize)
        ensures
            n == self@.sprite_ids.len(),
    {
        self.sprite_ids.len()
    }

    /// Returns the id of the sprite that the host names by `index`.
    pub fn sprite_id(&self, index: usize) -> (id: Option<u64>)
        ensures
            id == self@.id_at(index as int),
    {
        if index < self.sprite_ids.len() {
            Some(self.sprite_ids[index])
        } else {
            None
        }
    }

    /// Sets the background color.
    pub fn set_background_color(&mut self, r: u8, g: u8, b: u8, a: u8)
        ensures
            final(self)@ == (WasmSceneState {
                scene: SceneState { background: Rgba { r, g, b, a }, ..old(self)@.scene },
                ..old(self)@
            }),
    {
        self.scene.set_background_color(r, g, b, a);
    }

    /// Sets the background color.
    pub fn set_background(&mut self, r: u8, g: u8, b: u8, a: u8)
        ensures
            final(self)@ == (WasmSceneState {
                scene: SceneState { background: Rgba { r, g, b, a }, ..old(self)@.scene },
                ..old(self)@
            }),
    {
        self.scene.set_background_color(r, g, b, a);
    }

    /// Sets the background color from a packed `0xRRGGBBAA` word.
    pub fn set_background_hex(&mut self, color: u32)
        ensures
            final(self)@ == (WasmSceneState {
                scene: SceneState { background: unpacked(color), ..old(self)@.scene },
                ..old(self)@
            }),
    {
        self.scene.set_background_color_hex(color);
    }

    /// Adds `sprite` and returns the index by which the host names it from
    /// now on: the number of sprites added before it.
    fn add(&mut self, sprite: ImageSprite) -> (index: usize)
        requires
            old(self).wf(),
            sprite.wf(),
            old(self)@.scene.next_id < u64::MAX,
        ensures
            final(self).wf(),
            index == old(self)@.sprite_ids.len(),
            final(self)@ == (WasmSceneState {
                scene: SceneState {
                    layers: old(self)@.scene.layers.push(
                        SpriteState { id: old(self)@.scene.next_id, ..sprite@ },
                    ),
                    needs_sort: true,
                    next_id: (old(self)@.scene.next_id + 1) as u64,
                    ..old(self)@.scene
                },
                sprite_ids: old(self)@.sprite_ids.push(old(self)@.scene.next_id),
            }),
    {
        let id: u64 = self.scene.add(sprite);
        self.sprite_ids.push(id);
        proof {
            let before = old(self)@;
            let after = self@;
            assert forall|k: int| 0 <= k < after.sprite_ids.len() implies !id_absent(
                after.scene.layers,
                #[trigger] after.sprite_ids[k],
            ) by {
                if k < before.sprite_ids.len() {
                    let i = choose|i: int|
                        0 <= i < before.scene.layers.len() && before.scene.layers[i].id
                            == before.sprite_ids[k];
                    assert(after.scene.layers[i].id == after.sprite_ids[k]);
                } else {
                    assert(after.scene.layers[before.scene.layers.len() as int].id == id);
                }
            }
            assert forall|k: int, l: int| 0 <= k < l < after.sprite_ids.len() implies after.sprite_ids[k]
                != after.sprite_ids[l] by {
                if l == before.sprite_ids.len() {
                    let i = choose|i: int|
                        0 <= i < before.scene.layers.len() && before.scene.layers[i].id
                            == before.sprite_ids[k];
                    assert(before.scene.layers[i].id < before.scene.next_id);
                }
            }
        }
        self.sprite_ids.len() - 1
    }

    /// Adds a rectangle in which every pixel is (`r`, `g`, `b`, `a`), at
    /// z-order 0, and returns its index.
    pub fn add_rectangle(&mut self, width: u32, height: u32, r: u8, g: u8, b: u8, a: u8) -> (index:
        usize)
        requires
            old(self).wf(),
            image_len(width, height, ImageFormat::Rgba) <= usize::MAX,
            old(self)@.scene.next_id < u64::MAX,
        ensures
            final(self).wf(),
            index == old(self)@.sprite_ids.len(),
            final(self)@ == (WasmSceneState {
                scene: SceneState {
                    layers: old(self)@.scene.layers.push(
                        SpriteState {
                            id: old(self)@.scene.next_id,
                            width,
                            height,
                            format: ImageFormat::Rgba,
                            z_order: 0,
                            bytes: filled(
                                image_len(width, height, ImageFormat::Rgba),
                                Rgba { r, g, b, a },
                            ),
                            samples: None,
                        },
                    ),
                    needs_sort: true,
                    next_id: (old(self)@.scene.next_id + 1) as u64,
                    ..old(self)@.scene
                },
                sprite_ids: old(self)@.sprite_ids.push(old(self)@.scene.next_id),
            }),
    {
        let sprite = ImageSprite::create_rectangle(width, height, r, g, b, a);
        self.add(sprite)
    }

    /// Adds a rectangle filled with the packed `0xRRGGBBAA` color, at z-order
    /// `z_order`, and returns its index.
    pub fn add_sprite(&mut self, width: u32, height: u32, color: u32, z_order: i32) -> (index: u32)
        requires
            old(self).wf(),
            image_len(width, height, ImageFormat::Rgba) <= usize::MAX,
            old(self)@.scene.next_id < u64::MAX,
            old(self)@.sprite_ids.len() <= u32::MAX,
        ensures
            final(self).wf(),
            index == old(self)@.sprite_ids.len(),
            final(self)@ == (WasmSceneState {
                scene: SceneState {
                    layers: old(self)@.scene.layers.push(
                        SpriteState {
                            id: old(self)@.scene.next_id,
                            width,
                            height,
                            format: ImageFormat::Rgba,
                            z_order,
                            bytes: filled(
                                image_len(width, height, ImageFormat::Rgba),
                                unpacked(color),
                            ),
                            samples: None,
                        },
                    ),
                    needs_sort: true,
                    next_id: (old(self)@.scene.next_id + 1) as u64,
                    ..old(self)@.scene
                },
                sprite_ids: old(self)@.sprite_ids.push(old(self)@.scene.next_id),
            }),
    {
        let fill = Rgba::from_hex(color);
        let mut sprite = ImageSprite::create_rectangle(width, height, fill.r, fill.g, fill.b, fill.a);
        sprite.set_z_order(z_order);
        let index: usize = self.add(sprite);
        index as u32
    }

    /// Gives the sprite that the host names by `index` the z-order `z`, and
    /// asks for the sprites to be put in z-order before the next frame.
    pub fn set_sprite_z_order(&mut self, index: u32, z: i32)
        requires
            old(self).wf(),
        ensures
            final(self).wf(),
            old(self)@.id_at(index as int) is None ==> final(self)@ == old(self)@,
            old(self)@.id_at(index as int) matches Some(id) ==> exists|i: int|
                first_with_id(old(self)@.scene.layers, id, i) && final(self)@ == (WasmSceneState {
                    scene: SceneState {
                        layers: old(self)@.scene.layers.update(
                            i,
                            SpriteState { z_order: z, ..old(self)@.scene.layers[i] },
                        ),
                        needs_sort: true,
                        ..old(self)@.scene
                    },
                    ..old(self)@
                }),
    {
        let id: u64 = match self.sprite_id(index as usize) {
            Some(id) => id,
            None => {
                return ;
            },
        };
        let ghost before = self@;
        match self.scene.get_sprite_mut(id) {
            Some(sprite) => {
                sprite.set_z_order(z);
            },
            None => {},
        }
        self.scene.mark_needs_sort();
        proof {
            let i = choose|i: int|
                first_with_id(before.scene.layers, id, i) && self@.scene =~= (SceneState {
                    layers: before.scene.layers.update(
                        i,
                        SpriteState { z_order: z, ..before.scene.layers[i] },
                    ),
                    needs_sort: true,
                    ..before.scene
                });
            lemma_update_keeps_wf(before, i, SpriteState { z_order: z, ..before.scene.layers[i] });
        }
    }

    /// Returns the width and height of the sprite that the host names by
    /// `index`.
    pub fn sprite_size(&self, index: usize) -> (size: Option<(u32, u32)>)
        requires
            self.wf(),
        ensures
            size is Some <==> self@.id_at(index as int) is Some,
            self@.id_at(index as int) matches Some(id) ==> exists|i: int|
                first_with_id(self@.scene.layers, id, i) && size == Some(
                    (self@.scene.layers[i].width, self@.scene.layers[i].height),
                ),
    {
        match self.sprite_id(index) {
            Some(id) => match self.scene.get_sprite(id) {
                Some(sprite) => Some((sprite.width(), sprite.height())),
                None => None,
            },
            None => None,
        }
    }

    /// Places the sprite that the host names by `index`: `samples` says where
    /// it shows on the raster, `None` that it does not show.
    pub fn set_sprite_samples(&mut self, index: usize, samples: Option<SampleMap>)
        requires
            old(self).wf(),
            samples matches Some(map) ==> map.wf(),
        ensures
            final(self).wf(),
            old(self)@.id_at(index as int) is None ==> final(self)@ == old(self)@,
            old(self)@.id_at(index as int) matches Some(id) ==> exists|i: int|
                first_with_id(old(self)@.scene.layers, id, i) && final(self)@ == with_layer(
                    old(self)@,
                    i,
                    SpriteState { samples: grid_of(samples), ..old(self)@.scene.layers[i] },
                ),
    {
        let id: u64 = match self.sprite_id(index) {
            Some(id) => id,
            None => {
                return ;
            },
        };
        let ghost before = self@;
        let ghost placed = grid_of(samples);
        match self.scene.get_sprite_mut(id) {
            Some(sprite) => {
                sprite.set_samples(samples);
            },
            None => {},
        }
        proof {
            let i = choose|i: int|
                first_with_id(before.scene.layers, id, i) && self@.scene =~= (SceneState {
                    layers: before.scene.layers.update(
                        i,
                        SpriteState { samples: placed, ..before.scene.layers[i] },
                    ),
                    ..before.scene
                });
            lemma_update_keeps_wf(before, i, SpriteState { samples: placed, ..before.scene.layers[i] });
        }
    }

    /// Renders a frame, as [`Scene::render`] does. The indices name the same
    /// sprites as before.
    pub fn render(&mut self)
        requires
            old(self).wf(),
        ensures
            final(self).wf(),
            final(self)@.sprite_ids == old(self)@.sprite_ids,
            final(self)@.scene == (SceneState {
                layers: final(self)@.scene.layers,
                raster: frame(
                    old(self)@.scene.width,
                    old(self)@.scene.height,
                    old(self)@.scene.background,
                    final(self)@.scene.layers,
                ),
                needs_sort: false,
                ..old(self)@.scene
            }),
            old(self)@.scene.needs_sort ==> is_stable_z_sort(
                final(self)@.scene.layers,
                old(self)@.scene.layers,
            ),
            !old(self)@.scene.needs_sort ==> final(self)@.scene.layers == old(self)@.scene.layers,
    {
        self.scene.render();
        proof {
            if old(self)@.scene.needs_sort {
                assert forall|k: int| 0 <= k < self@.sprite_ids.len() implies !id_absent(
                    self@.scene.layers,
                    #[trigger] self@.sprite_ids[k],
                ) by {
                    lemma_sort_keeps_ids(
                        self@.scene.layers,
                        old(self)@.scene.layers,
                        self@.sprite_ids[k],
                    );
                }
            }
        }
    }

    /// Removes all sprites. Indices start from 0 again.
    pub fn clear(&mut self)
        requires
            old(self).wf(),
        ensures
            final(self).wf(),
            final(self)@ == (WasmSceneState {
                scene: SceneState {
                    layers: Seq::empty(),
                    needs_sort: false,
                    ..old(self)@.scene
                },
                sprite_ids: Seq::empty(),
            }),
    {
        self.scene.clear();
        self.sprite_ids.clear();
    }

    /// Removes all sprites. Indices start from 0 again.
    pub fn clear_sprites(&mut self)
        requires
            old(self).wf(),
        ensures
            final(self).wf(),
            final(self)@ == (WasmSceneState {
                scene: SceneState {
                    layers: Seq::empty(),
                    needs_sort: false,
                    ..old(self)@.scene
                },
                sprite_ids: Seq::empty(),
            }),
    {
        self.clear();
    }
}

/// Replacing a sprite by one with the same id that is well formed keeps the
/// state well formed.
proof fn lemma_update_keeps_wf(state: WasmSceneState, i: int, sprite: SpriteState)
    requires
        state.wf(),
        0 <= i < state.scene.layers.len(),
        sprite.wf(),
        sprite.id == state.scene.layers[i].id,
    ensures
        with_layer(state, i, sprite).wf(),
        (WasmSceneState {
            scene: SceneState { needs_sort: true, ..with_layer(state, i, sprite).scene },
            ..state
        }).wf(),
{
    let after = with_layer(state, i, sprite);
    assert forall|k: int| 0 <= k < after.sprite_ids.len() implies !id_absent(
        after.scene.layers,
        #[trigger] after.sprite_ids[k],
    ) by {
        let j = choose|j: int|
            0 <= j < state.scene.layers.len() && state.scene.layers[j].id == state.sprite_ids[k];
        assert(after.scene.layers[j].id == after.sprite_ids[k]);
    }
    assert forall|a: int, b: int| 0 <= a < b < after.scene.layers.len() implies (
    #[trigger] after.scene.layers[a]).id != (#[trigger] after.scene.layers[b]).id by {
        assert(state.scene.layers[a].id != state.scene.layers[b].id);
    }
}

} // verus!
