//! Scenes: an RGBA output raster and the sprites that are painted onto it.

use vstd::prelude::*;
use crate::buffer::{checked_image_len, image_len};
use crate::format::ImageFormat;
use crate::pixel::{fill_rgba, filled, unpacked, Rgba};
use crate::sprite::{ImageSprite, SpriteState};

verus! {

/// What a [`Scene`] holds.
#[verifier::ext_equal]
pub struct SceneState {
    pub width: u32,
    pub height: u32,
    /// The color that every frame starts from.
    pub background: Rgba,
    /// The output raster: RGBA, row by row.
    pub raster: Seq<u8>,
    /// The sprites, in the order in which they are painted.
    pub layers: Seq<SpriteState>,
    /// Whether the sprites are to be put in z-order before the next frame.
    pub needs_sort: bool,
    /// The id that the next sprite will be given.
    pub next_id: u64,
}

/// Every sprite is well formed and has an id of its own, below `next_id`.
pub open spec fn layers_wf(layers: Seq<SpriteState>, next_id: u64) -> bool {
    &&& forall|i: int| 0 <= i < layers.len() ==> (#[trigger] layers[i]).wf()
    &&& forall|i: int| 0 <= i < layers.len() ==> (#[trigger] layers[i]).id < next_id
    &&& forall|i: int, j: int|
        0 <= i < j < layers.len() ==> (#[trigger] layers[i]).id != (#[trigger] layers[j]).id
}

/// No sprite of `layers` has the id `id`.
pub open spec fn id_absent(layers: Seq<SpriteState>, id: u64) -> bool {
    forall|i: int| 0 <= i < layers.len() ==> (#[trigger] layers[i]).id != id
}

/// Sprite `i` of `layers` is the first that has the id `id`.
pub open spec fn first_with_id(layers: Seq<SpriteState>, id: u64, i: int) -> bool {
    &&& 0 <= i < layers.len()
    &&& layers[i].id == id
    &&& id_absent(layers.take(i), id)
}

/// Whether a sprite has the z-order `z`.
pub open spec fn has_z(z: i32) -> spec_fn(SpriteState) -> bool {
    |layer: SpriteState| layer.z_order == z
}

/// No sprite stands before one of a lower z-order.
pub open spec fn in_z_order(layers: Seq<SpriteState>) -> bool {
    forall|i: int, j: int|
        0 <= i <= j < layers.len() ==> (#[trigger] layers[i]).z_order <= (
        #[trigger] layers[j]).z_order
}

/// For each z-order, `a` and `b` hold the same sprites of that z-order, in
/// the same order.
pub open spec fn same_order_within_z(a: Seq<SpriteState>, b: Seq<SpriteState>) -> bool {
    forall|z: i32| #[trigger] a.filter(has_z(z)) == b.filter(has_z(z))
}

/// `sorted` is `layers` put in ascending z-order, with sprites of equal
/// z-order left in the order in which they stood.
pub open spec fn is_stable_z_sort(sorted: Seq<SpriteState>, layers: Seq<SpriteState>) -> bool {
    &&& sorted.len() == layers.len()
    &&& in_z_order(sorted)
    &&& same_order_within_z(sorted, layers)
}

/// The raster after the first `n` sprites of `layers` have been painted, one
/// after the other, onto `base`: each sprite is composited over what the
/// sprites before it have left.
pub open spec fn painted_through(
    layers: Seq<SpriteState>,
    n: nat,
    base: Seq<u8>,
    width: u32,
    height: u32,
) -> Seq<u8>
    decreases n,
{
    if n == 0 {
        base
    } else {
        layers[n - 1].painted(
            painted_through(layers, (n - 1) as nat, base, width, height),
            width,
            height,
        )
    }
}

/// The frame that a scene of this size, background and sprites shows: the
/// background color everywhere, with all sprites painted over it in order.
pub open spec fn frame(
    width: u32,
    height: u32,
    background: Rgba,
    layers: Seq<SpriteState>,
) -> Seq<u8> {
    painted_through(
        layers,
        layers.len(),
        filled(image_len(width, height, ImageFormat::Rgba), background),
        width,
        height,
    )
}

/// The place in `layers` of the sprite that stands at place `k` once sprite
/// `i` has been moved down to place `j`.
pub open spec fn place_before_move(k: int, j: int, i: int) -> int {
    if k < j {
        k
    } else if k == j {
        i
    } else if k <= i {
        k - 1
    } else {
        k
    }
}

/// Moving sprite `i` down to place `j` shifts the sprites between them up by
/// one and leaves all others where they were.
pub proof fn lemma_move_places(layers: Seq<SpriteState>, j: int, i: int)
    requires
        0 <= j <= i < layers.len(),
    ensures
        layers.remove(i).insert(j, layers[i]).len() == layers.len(),
        forall|k: int|
            0 <= k < layers.len() ==> #[trigger] layers.remove(i).insert(j, layers[i])[k]
                == layers[place_before_move(k, j, i)],
{
}

/// Moving a sprite down past sprites of other z-orders only keeps, for each
/// z-order, the sprites of that z-order in their order.
pub proof fn lemma_move_keeps_order_within_z(layers: Seq<SpriteState>, j: int, i: int)
    requires
        0 <= j <= i < layers.len(),
        forall|k: int| j <= k < i ==> (#[trigger] layers[k]).z_order != layers[i].z_order,
    ensures
        same_order_within_z(layers.remove(i).insert(j, layers[i]), layers),
{
    let moved = layers.remove(i).insert(j, layers[i]);
    let below = layers.subrange(0, j);
    let passed = layers.subrange(j, i);
    let one = seq![layers[i]];
    let above = layers.subrange(i + 1, layers.len() as int);
    assert(layers =~= below + passed + one + above);
    assert(moved =~= below + one + passed + above);
    assert forall|z: i32| #[trigger] moved.filter(has_z(z)) == layers.filter(has_z(z)) by {
        let pred = has_z(z);
        Seq::filter_distributes_over_add(below, passed, pred);
        Seq::filter_distributes_over_add(below + passed, one, pred);
        Seq::filter_distributes_over_add(below + passed + one, above, pred);
        Seq::filter_distributes_over_add(below, one, pred);
        Seq::filter_distributes_over_add(below + one, passed, pred);
        Seq::filter_distributes_over_add(below + one + passed, above, pred);
        if z == layers[i].z_order {
            assert(passed.all(|x: SpriteState| !pred(x)));
            passed.lemma_all_neg_filter_empty(pred);
            assert(passed.filter(pred) =~= Seq::empty());
        } else {
            assert(one.all(|x: SpriteState| !pred(x)));
            one.lemma_all_neg_filter_empty(pred);
            assert(one.filter(pred) =~= Seq::empty());
        }
        assert(moved.filter(pred) =~= layers.filter(pred));
    }
}

/// A scene without sprites shows its background color at every pixel.
pub proof fn lemma_empty_scene_shows_background(width: u32, height: u32, background: Rgba)
    ensures
        frame(width, height, background, Seq::empty()) == filled(
            image_len(width, height, ImageFormat::Rgba),
            background,
        ),
{
}

/// Sprites of which no pixel shows leave the raster as it was before them.
pub proof fn lemma_hidden_layers_paint_nothing(
    layers: Seq<SpriteState>,
    n: nat,
    base: Seq<u8>,
    width: u32,
    height: u32,
)
    requires
        n <= layers.len(),
        forall|k: int, tx: int, ty: int|
            0 <= k < n && 0 <= tx < width && 0 <= ty < height ==> (#[trigger] layers[k].shown_at(
                tx,
                ty,
            )) is None,
    ensures
        painted_through(layers, n, base, width, height) == base,
    decreases n,
{
    if n > 0 {
        lemma_hidden_layers_paint_nothing(layers, (n - 1) as nat, base, width, height);
        crate::sprite::lemma_hidden_sprite_paints_nothing(layers[n - 1], base, width, height);
    }
}

/// There is only one way to put sprites in z-order and keep those of equal
/// z-order in their order: two stable sorts of the same sprites are equal.
pub proof fn lemma_stable_z_sort_unique(
    a: Seq<SpriteState>,
    b: Seq<SpriteState>,
    layers: Seq<SpriteState>,
)
    requires
        is_stable_z_sort(a, layers),
        is_stable_z_sort(b, layers),
    ensures
        a == b,
{
    assert forall|z: i32| #[trigger] a.filter(has_z(z)) == b.filter(has_z(z)) by {
        assert(a.filter(has_z(z)) == layers.filter(has_z(z)));
        assert(b.filter(has_z(z)) == layers.filter(has_z(z)));
    }
    lemma_z_ordered_equal(a, b);
}

/// Two sequences in z-order that agree, for each z-order, on the sprites of
/// that z-order and on their order, are equal.
proof fn lemma_z_ordered_equal(a: Seq<SpriteState>, b: Seq<SpriteState>)
    requires
        a.len() == b.len(),
        in_z_order(a),
        in_z_order(b),
        same_order_within_z(a, b),
    ensures
        a == b,
    decreases a.len(),
{
    if a.len() == 0 {
        assert(a =~= b);
    } else {
        let za = a.last().z_order;
        let zb = b.last().z_order;
        reveal(Seq::filter);
        // The highest z-order of one occurs in the other, so both end on the
        // same z-order.
        assert(a.filter(has_z(za)) == b.filter(has_z(za)));
        assert(a.filter(has_z(zb)) == b.filter(has_z(zb)));
        assert(has_z(za)(a.last()));
        assert(has_z(zb)(b.last()));
        assert(a.filter(has_z(za)).contains(a.last())) by {
            a.lemma_filter_contains(has_z(za), a.len() - 1);
        }
        assert(b.filter(has_z(zb)).contains(b.last())) by {
            b.lemma_filter_contains(has_z(zb), b.len() - 1);
        }
        b.lemma_filter_contains_rev(has_z(za), a.last());
        a.lemma_filter_contains_rev(has_z(zb), b.last());
        let ia = choose|i: int| 0 <= i < b.len() && b[i] == a.last();
        let ib = choose|i: int| 0 <= i < a.len() && a[i] == b.last();
        assert(b[ia].z_order <= b[b.len() - 1].z_order);
        assert(a[ib].z_order <= a[a.len() - 1].z_order);
        assert(za == zb);
        // Both end on the last sprite of that z-order.
        let fa = a.drop_last().filter(has_z(za));
        let fb = b.drop_last().filter(has_z(za));
        assert(a.filter(has_z(za)) == fa.push(a.last()));
        assert(b.filter(has_z(za)) == fb.push(b.last()));
        assert(fa.push(a.last()).last() == fb.push(b.last()).last());
        assert(a.last() == b.last());
        assert(fa =~= fa.push(a.last()).drop_last());
        assert(fb =~= fb.push(b.last()).drop_last());
        // What stands before it agrees in the same way.
        assert forall|z: i32| #[trigger]
            a.drop_last().filter(has_z(z)) == b.drop_last().filter(has_z(z)) by {
            assert(a.filter(has_z(z)) == b.filter(has_z(z)));
            if z != za {
                assert(!has_z(z)(a.last()));
                assert(!has_z(z)(b.last()));
            }
        }
        assert forall|i: int, j: int| 0 <= i <= j < a.drop_last().len() implies (
        #[trigger] a.drop_last()[i]).z_order <= (#[trigger] a.drop_last()[j]).z_order by {
            assert(a.drop_last()[i] == a[i] && a.drop_last()[j] == a[j]);
        }
        assert forall|i: int, j: int| 0 <= i <= j < b.drop_last().len() implies (
        #[trigger] b.drop_last()[i]).z_order <= (#[trigger] b.drop_last()[j]).z_order by {
            assert(b.drop_last()[i] == b[i] && b.drop_last()[j] == b[j]);
        }
        lemma_z_ordered_equal(a.drop_last(), b.drop_last());
        assert(a =~= a.drop_last().push(a.last()));
        assert(b =~= b.drop_last().push(b.last()));
    }
}

impl SceneState {
    /// The raster has the scene's size, and the sprites are well formed with
    /// ids of their own.
    pub open spec fn wf(self) -> bool {
        &&& self.raster.len() == image_len(self.width, self.height, ImageFormat::Rgba)
        &&& layers_wf(self.layers, self.next_id)
    }
}

/// A collection of sprites and the raster that they are rendered to.
#[derive(Debug)]
pub struct Scene {
    buffer: Vec<u8>,
    width: u32,
    height: u32,
    background_color: Rgba,
    sprites: Vec<ImageSprite>,
    needs_sort: bool,
    next_id: u64,
}

impl View for Scene {
    type V = SceneState;

    closed spec fn view(&self) -> SceneState {
        SceneState {
            width: self.width,
            height: self.height,
            background: self.background_color,
            raster: self.buffer@,
            layers: self.sprites@.map_values(|s: ImageSprite| s@),
            needs_sort: self.needs_sort,
            next_id: self.next_id,
        }
    }
}

impl Scene {
    /// The scene's state is well formed.
    pub open spec fn wf(&self) -> bool {
        self@.wf()
    }

    /// Creates a scene with a zero-filled raster, an opaque black
    /// background and no sprites.
    pub fn new(width: u32, height: u32) -> (scene: Scene)
        requires
            image_len(width, height, ImageFormat::Rgba) <= usize::MAX,
        ensures
            scene.wf(),
            scene@ == (SceneState {
                width,
                height,
                background: Rgba { r: 0, g: 0, b: 0, a: 255 },
                raster: Seq::new(image_len(width, height, ImageFormat::Rgba), |i: int| 0u8),
                layers: Seq::empty(),
                needs_sort: false,
                next_id: 0,
            }),
    {
        let size: usize = match checked_image_len(width, height, ImageFormat::Rgba) {
            Some(n) => n,
            None => 0,
        };
        let buffer: Vec<u8> = vec![0u8; size];
        let scene = Scene {
            buffer,
            width,
            height,
            background_color: Rgba { r: 0, g: 0, b: 0, a: 255 },
            sprites: Vec::new(),
            needs_sort: false,
            next_id: 0,
        };
        assert(scene@.raster =~= Seq::new(
            image_len(width, height, ImageFormat::Rgba),
            |i: int| 0u8,
        ));
        assert(scene@.layers =~= Seq::empty());
        scene
    }

    /// Returns the width in pixels.
    pub fn width(&self) -> (w: u32)
        ensures
            w == self@.width,
    {
        self.width
    }

    /// Returns the height in pixels.
    pub fn height(&self) -> (h: u32)
        ensures
            h == self@.height,
    {
        self.height
    }

    /// Returns the length of the raster in bytes.
    pub fn len(&self) -> (n: usize)
        ensures
            n == self@.raster.len(),
    {
        self.buffer.len()
    }

    /// Returns whether the scene has no sprites.
    pub fn is_empty(&self) -> (e: bool)
        ensures
            e <==> self@.layers.len() == 0,
    {
        self.sprites.is_empty()
    }

    /// Returns the raster.
    pub fn buffer(&self) -> (b: &[u8])
        ensures
            b@ == self@.raster,
    {
        self.buffer.as_slice()
    }

    /// Returns the number of sprites.
    pub fn sprite_count(&self) -> (n: usize)
        ensures
            n == self@.layers.len(),
    {
        self.sprites.len()
    }

    /// Returns the id that the next sprite will be given.
    pub fn next_id(&self) -> (id: u64)
        ensures
            id == self@.next_id,
    {
        self.next_id
    }

    /// Returns the sprites in the order in which they are painted.
    pub fn sprites(&self) -> (s: &[ImageSprite])
        ensures
            s@.map_values(|s: ImageSprite| s@) == self@.layers,
    {
        self.sprites.as_slice()
    }

    /// Sets the background color.
    pub fn set_background_color(&mut self, r: u8, g: u8, b: u8, a: u8) -> (scene: &mut Self)
        ensures
            scene@ == (SceneState { background: Rgba { r, g, b, a }, ..old(self)@ }),
            *final(self) == *final(scene),
    {
        self.background_color = Rgba { r, g, b, a };
        self
    }

    /// Sets the background color from a packed `0xRRGGBBAA` word.
    pub fn set_background_color_hex(&mut self, color: u32) -> (scene: &mut Self)
        ensures
            scene@ == (SceneState { background: unpacked(color), ..old(self)@ }),
            *final(self) == *final(scene),
    {
        self.background_color = Rgba::from_hex(color);
        self
    }

    /// Adds a sprite on top of the others of its z-order, gives it the next
    /// id, and returns that id. The sprites are put in z-order again before
    /// the next frame.
    pub fn add(&mut self, sprite: ImageSprite) -> (id: u64)
        requires
            old(self).wf(),
            sprite.wf(),
            old(self)@.next_id < u64::MAX,
        ensures
            final(self).wf(),
            id == old(self)@.next_id,
            final(self)@ == (SceneState {
                layers: old(self)@.layers.push(SpriteState { id, ..sprite@ }),
                needs_sort: true,
                next_id: (id + 1) as u64,
                ..old(self)@
            }),
    {
        let id: u64 = self.next_id;
        let mut sprite = sprite;
        sprite.assign_id(id);
        self.sprites.push(sprite);
        self.needs_sort = true;
        self.next_id = id + 1;
        assert(self@.layers =~= old(self)@.layers.push(sprite@));
        id
    }

    /// Removes all sprites.
    pub fn clear(&mut self)
        ensures
            final(self)@ == (SceneState {
                layers: Seq::empty(),
                needs_sort: false,
                ..old(self)@
            }),
            old(self).wf() ==> final(self).wf(),
    {
        self.sprites.clear();
        self.needs_sort = false;
        assert(self@.layers =~= Seq::empty());
    }

    /// Gives the scene a new size and a zero-filled raster of that size. The
    /// sprites stay as they are.
    pub fn resize(&mut self, width: u32, height: u32)
        requires
            image_len(width, height, ImageFormat::Rgba) <= usize::MAX,
        ensures
            final(self)@ == (SceneState {
                width,
                height,
                raster: Seq::new(image_len(width, height, ImageFormat::Rgba), |i: int| 0u8),
                ..old(self)@
            }),
            old(self).wf() ==> final(self).wf(),
    {
        let size: usize = match checked_image_len(width, height, ImageFormat::Rgba) {
            Some(n) => n,
            None => 0,
        };
        self.width = width;
        self.height = height;
        self.buffer = vec![0u8; size];
        assert(self@.raster =~= Seq::new(
            image_len(width, height, ImageFormat::Rgba),
            |i: int| 0u8,
        ));
    }

    /// Asks for the sprites to be put in z-order before the next frame. To be
    /// called whenever a sprite of the scene has been given another z-order.
    pub fn mark_needs_sort(&mut self)
        ensures
            final(self)@ == (SceneState { needs_sort: true, ..old(self)@ }),
    {
        self.needs_sort = true;
    }

    /// Fills the raster with the background color, without blending.
    fn clear_buffer(&mut self)
        requires
            old(self).wf(),
        ensures
            final(self)@ == (SceneState {
                raster: filled(old(self)@.raster.len(), old(self)@.background),
                ..old(self)@
            }),
    {
        assert(self.buffer@.len() % 4 == 0) by {
            assert(self.buffer@.len() == (self.width as nat * self.height as nat) * 4);
        }
        fill_rgba(self.buffer.as_mut_slice(), self.background_color);
    }

    /// Returns the place of the first sprite with the id `id`, if there is
    /// one.
    fn position(&self, id: u64) -> (at: Option<usize>)
        ensures
            at matches Some(i) ==> first_with_id(self@.layers, id, i as int),
            at is None ==> id_absent(self@.layers, id),
    {
        let mut i: usize = 0;
        while i < self.sprites.len()
            invariant
                i <= self.sprites.len(),
                id_absent(self@.layers.take(i as int), id),
            decreases self.sprites.len() - i,
        {
            if self.sprites[i].id() == id {
                return Some(i);
            }
            i += 1;
        }
        assert(self@.layers.take(i as int) =~= self@.layers);
        None
    }

    /// Removes the sprite with the id `id` and returns whether there was
    /// one. The other sprites keep their order.
    pub fn remove(&mut self, id: u64) -> (removed: bool)
        ensures
            removed <==> !id_absent(old(self)@.layers, id),
            removed ==> exists|i: int|
                first_with_id(old(self)@.layers, id, i) && final(self)@ == (SceneState {
                    layers: old(self)@.layers.remove(i),
                    ..old(self)@
                }),
            !removed ==> final(self)@ == old(self)@,
            old(self).wf() ==> final(self).wf(),
    {
        match self.position(id) {
            Some(pos) => {
                self.sprites.remove(pos);
                assert(self@.layers =~= old(self)@.layers.remove(pos as int));
                assert(first_with_id(old(self)@.layers, id, pos as int));
                true
            },
            None => false,
        }
    }

    /// Returns the sprite with the id `id`, if there is one.
    pub fn get_sprite(&self, id: u64) -> (sprite: Option<&ImageSprite>)
        ensures
            sprite is None <==> id_absent(self@.layers, id),
            sprite matches Some(s) ==> exists|i: int|
                first_with_id(self@.layers, id, i) && s@ == self@.layers[i],
    {
        match self.position(id) {
            Some(pos) => {
                assert(first_with_id(self@.layers, id, pos as int));
                Some(&self.sprites[pos])
            },
            None => None,
        }
    }

    /// Returns the sprite with the id `id` for changing in place, if there is
    /// one. After a change of its z-order, call [`Scene::mark_needs_sort`].
    pub fn get_sprite_mut(&mut self, id: u64) -> (sprite: Option<&mut ImageSprite>)
        ensures
            sprite is None <==> id_absent(old(self)@.layers, id),
            sprite is None ==> final(self)@ == old(self)@,
            sprite matches Some(s) ==> exists|i: int|
                first_with_id(old(self)@.layers, id, i) && s@ == old(self)@.layers[i]
                    && final(self)@ =~= (SceneState {
                    layers: old(self)@.layers.update(i, final(s)@),
                    ..old(self)@
                }),
    {
        match self.position(id) {
            Some(pos) => {
                assert(first_with_id(old(self)@.layers, id, pos as int));
                Some(&mut self.sprites[pos])
            },
            None => None,
        }
    }

    /// Puts the sprites in ascending z-order if that has been asked for.
    /// Sprites of equal z-order stay in the order in which they stood.
    fn sort_sprites(&mut self)
        requires
            old(self).wf(),
        ensures
            final(self).wf(),
            final(self)@ == (SceneState {
                layers: final(self)@.layers,
                needs_sort: false,
                ..old(self)@
            }),
            old(self)@.needs_sort ==> is_stable_z_sort(final(self)@.layers, old(self)@.layers),
            !old(self)@.needs_sort ==> final(self)@.layers == old(self)@.layers,
    {
        if !self.needs_sort {
            return ;
        }
        let count: usize = self.sprites.len();
        let mut i: usize = 0;
        while i < count
            invariant
                i <= count,
                self.sprites@.len() == count,
                self@ == (SceneState { layers: self@.layers, ..old(self)@ }),
                layers_wf(self@.layers, self@.next_id),
                same_order_within_z(self@.layers, old(self)@.layers),
                in_z_order(self@.layers.take(i as int)),
            decreases count - i,
        {
            let z: i32 = self.sprites[i].z_order();
            let mut j: usize = i;
            while j > 0 && self.sprites[j - 1].z_order() > z
                invariant
                    j <= i < count,
                    self.sprites@.len() == count,
                    z == self@.layers[i as int].z_order,
                    forall|k: int| j <= k < i ==> (#[trigger] self@.layers[k]).z_order > z,
                decreases j,
            {
                j -= 1;
            }
            let ghost before = self@.layers;
            if j < i {
                let sprite = self.sprites.remove(i);
                self.sprites.insert(j, sprite);
            }
            proof {
                let after = self@.layers;
                assert(after =~= before.remove(i as int).insert(j as int, before[i as int]));
                lemma_move_places(before, j as int, i as int);
                lemma_move_keeps_order_within_z(before, j as int, i as int);
                assert forall|w: i32| #[trigger]
                    after.filter(has_z(w)) == old(self)@.layers.filter(has_z(w)) by {
                    assert(after.filter(has_z(w)) == before.filter(has_z(w)));
                }
                assert forall|a: int, b: int| 0 <= a < b < after.len() implies (
                #[trigger] after[a]).id != (#[trigger] after[b]).id by {
                    let from_a = place_before_move(a, j as int, i as int);
                    let from_b = place_before_move(b, j as int, i as int);
                    assert(after[a] == before[from_a] && after[b] == before[from_b]);
                    assert(from_a != from_b);
                    if from_a < from_b {
                        assert(before[from_a].id != before[from_b].id);
                    } else {
                        assert(before[from_b].id != before[from_a].id);
                    }
                }
                assert forall|a: int| 0 <= a < after.len() implies (#[trigger] after[a]).wf()
                    && after[a].id < self@.next_id by {
                    assert(after[a] == before[place_before_move(a, j as int, i as int)]);
                }
                let head = after.take(i as int + 1);
                assert forall|a: int, b: int| 0 <= a <= b < head.len() implies (
                #[trigger] head[a]).z_order <= (#[trigger] head[b]).z_order by {
                    let from_a = place_before_move(a, j as int, i as int);
                    let from_b = place_before_move(b, j as int, i as int);
                    assert(head[a] == before[from_a] && head[b] == before[from_b]);
                    let sorted = before.take(i as int);
                    if from_a < i {
                        assert(sorted[from_a] == before[from_a]);
                    }
                    if from_b < i {
                        assert(sorted[from_b] == before[from_b]);
                    }
                    if j > 0 {
                        assert(sorted[j as int - 1] == before[j as int - 1]);
                    }
                }
            }
            i += 1;
        }
        self.needs_sort = false;
        assert(self@.layers.take(count as int) =~= self@.layers);
    }

    /// Renders a frame: puts the sprites in z-order if that has been asked
    /// for, fills the raster with the background color, and paints the
    /// sprites onto it in order, so that each one lies over those before it.
    pub fn render(&mut self)
        requires
            old(self).wf(),
        ensures
            final(self).wf(),
            final(self)@ == (SceneState {
                layers: final(self)@.layers,
                raster: frame(
                    old(self)@.width,
                    old(self)@.height,
                    old(self)@.background,
                    final(self)@.layers,
                ),
                needs_sort: false,
                ..old(self)@
            }),
            old(self)@.needs_sort ==> is_stable_z_sort(final(self)@.layers, old(self)@.layers),
            !old(self)@.needs_sort ==> final(self)@.layers == old(self)@.layers,
    {
        self.sort_sprites();
        self.clear_buffer();
        let width: u32 = self.width;
        let height: u32 = self.height;
        let count: usize = self.sprites.len();
        let ghost layers = self@.layers;
        let ghost base = self@.raster;
        let ghost settled = self@;
        let mut i: usize = 0;
        while i < count
            invariant
                i <= count,
                count == layers.len(),
                width == settled.width,
                height == settled.height,
                settled.wf(),
                settled.layers == layers,
                base.len() == image_len(width, height, ImageFormat::Rgba),
                self@ == (SceneState { raster: self@.raster, ..settled }),
                self@.raster.len() == base.len(),
                self@.raster == painted_through(layers, i as nat, base, width, height),
            decreases count - i,
        {
            assert(self.sprites[i as int]@ == layers[i as int]);
            self.sprites[i].render_to(self.buffer.as_mut_slice(), width, height);
            i += 1;
        }
    }
}

} // verus!
