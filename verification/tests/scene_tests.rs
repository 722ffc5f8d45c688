use raster2d::{ImageFormat, ImageSprite, SampleMap, Scene};

fn covering(tw: u32, th: u32) -> SampleMap {
    let mut map = SampleMap::new(tw, th);
    for ty in 0..th {
        for tx in 0..tw {
            map.set(tx, ty, Some((tx, ty)));
        }
    }
    map
}

fn z_orders(scene: &Scene) -> Vec<i32> {
    scene.sprites().iter().map(|s| s.z_order()).collect()
}

fn ids(scene: &Scene) -> Vec<u64> {
    scene.sprites().iter().map(|s| s.id()).collect()
}

#[test]
fn test_create_scene() {
    let scene = Scene::new(800, 600);
    assert_eq!(scene.width(), 800);
    assert_eq!(scene.height(), 600);
    assert_eq!(scene.buffer().len(), 800 * 600 * 4);
}

#[test]
fn test_add_remove_sprite() {
    let mut scene = Scene::new(100, 100);
    let sprite = ImageSprite::new(50, 50, ImageFormat::Rgba);
    let id = scene.add(sprite);

    assert_eq!(scene.sprite_count(), 1);

    let removed = scene.remove(id);
    assert!(removed);
    assert_eq!(scene.sprite_count(), 0);
}

#[test]
fn test_z_order_sorting() {
    let mut scene = Scene::new(100, 100);

    let mut sprite1 = ImageSprite::new(10, 10, ImageFormat::Rgba);
    sprite1.set_z_order(10);

    let mut sprite2 = ImageSprite::new(10, 10, ImageFormat::Rgba);
    sprite2.set_z_order(5);

    let mut sprite3 = ImageSprite::new(10, 10, ImageFormat::Rgba);
    sprite3.set_z_order(15);

    scene.add(sprite1);
    scene.add(sprite2);
    scene.add(sprite3);

    scene.render();

    let z_orders: Vec<i32> = scene.sprites().iter().map(|s| s.z_order()).collect();
    assert_eq!(z_orders, vec![5, 10, 15]);
}

#[test]
fn test_background_color() {
    let mut scene = Scene::new(2, 2);
    scene.set_background_color(255, 0, 0, 255);
    scene.render();

    assert_eq!(scene.buffer()[0], 255);
    assert_eq!(scene.buffer()[1], 0);
    assert_eq!(scene.buffer()[2], 0);
    assert_eq!(scene.buffer()[3], 255);
}

#[test]
fn new_scene_is_zeroed_and_empty() {
    let scene = Scene::new(3, 2);
    assert_eq!(scene.len(), 24);
    assert!(scene.buffer().iter().all(|b| *b == 0));
    assert!(scene.is_empty());
    assert_eq!(scene.sprite_count(), 0);
    assert_eq!(scene.next_id(), 0);
}

#[test]
fn empty_scene_renders_four_background_pixels() {
    let mut scene = Scene::new(2, 2);
    scene.set_background_color(255, 0, 0, 255);
    scene.render();
    assert_eq!(
        scene.buffer(),
        &[255, 0, 0, 255, 255, 0, 0, 255, 255, 0, 0, 255, 255, 0, 0, 255][..]
    );
}

#[test]
fn default_background_is_opaque_black() {
    let mut scene = Scene::new(1, 2);
    scene.render();
    assert_eq!(scene.buffer(), &[0, 0, 0, 255, 0, 0, 0, 255][..]);
}

#[test]
fn background_is_filled_not_blended() {
    let mut scene = Scene::new(1, 1);
    scene.set_background_color(10, 20, 30, 40);
    scene.render();
    assert_eq!(scene.buffer(), &[10, 20, 30, 40][..]);
    scene.set_background_color(1, 2, 3, 0);
    scene.render();
    assert_eq!(scene.buffer(), &[1, 2, 3, 0][..]);
}

#[test]
fn background_from_hex() {
    let mut scene = Scene::new(1, 1);
    scene.set_background_color_hex(0x11223344);
    scene.render();
    assert_eq!(scene.buffer(), &[0x11, 0x22, 0x33, 0x44][..]);
}

#[test]
fn setters_chain() {
    let mut scene = Scene::new(1, 1);
    scene.set_background_color(1, 1, 1, 1).set_background_color_hex(0xFF0000FF);
    scene.render();
    assert_eq!(scene.buffer(), &[255, 0, 0, 255][..]);
}

#[test]
fn ids_count_up_from_zero() {
    let mut scene = Scene::new(1, 1);
    let a = scene.add(ImageSprite::new(1, 1, ImageFormat::Rgba));
    let b = scene.add(ImageSprite::new(1, 1, ImageFormat::Rgb));
    let c = scene.add(ImageSprite::new(1, 1, ImageFormat::Grayscale));
    assert_eq!((a, b, c), (0, 1, 2));
    assert_eq!(ids(&scene), vec![0, 1, 2]);
    assert_eq!(scene.next_id(), 3);
    assert!(scene.remove(b));
    let d = scene.add(ImageSprite::new(1, 1, ImageFormat::Rgba));
    assert_eq!(d, 3);
    assert_eq!(ids(&scene), vec![0, 2, 3]);
}

#[test]
fn remove_of_an_unknown_id_changes_nothing() {
    let mut scene = Scene::new(1, 1);
    scene.add(ImageSprite::new(1, 1, ImageFormat::Rgba));
    assert!(!scene.remove(7));
    assert_eq!(scene.sprite_count(), 1);
    assert!(scene.remove(0));
    assert!(!scene.remove(0));
    assert!(scene.is_empty());
}

#[test]
fn remove_keeps_the_order_of_the_others() {
    let mut scene = Scene::new(1, 1);
    for z in [4, 3, 2, 1] {
        let mut s = ImageSprite::new(1, 1, ImageFormat::Rgba);
        s.set_z_order(z);
        scene.add(s);
    }
    assert!(scene.remove(1));
    assert_eq!(z_orders(&scene), vec![4, 2, 1]);
    assert_eq!(ids(&scene), vec![0, 2, 3]);
}

#[test]
fn equal_z_orders_keep_insertion_order() {
    let mut scene = Scene::new(1, 1);
    for z in [2, 1, 2, 1, 0, 2, 1] {
        let mut s = ImageSprite::new(1, 1, ImageFormat::Rgba);
        s.set_z_order(z);
        scene.add(s);
    }
    scene.render();
    assert_eq!(z_orders(&scene), vec![0, 1, 1, 1, 2, 2, 2]);
    assert_eq!(ids(&scene), vec![4, 1, 3, 6, 0, 2, 5]);
}

#[test]
fn negative_and_extreme_z_orders_sort() {
    let mut scene = Scene::new(1, 1);
    for z in [i32::MAX, -1, i32::MIN, 0, -1] {
        let mut s = ImageSprite::new(1, 1, ImageFormat::Rgba);
        s.set_z_order(z);
        scene.add(s);
    }
    scene.render();
    assert_eq!(z_orders(&scene), vec![i32::MIN, -1, -1, 0, i32::MAX]);
    assert_eq!(ids(&scene), vec![2, 1, 4, 3, 0]);
}

#[test]
fn z_order_change_takes_effect_only_once_marked() {
    let mut scene = Scene::new(1, 1);
    for z in [1, 2] {
        let mut s = ImageSprite::new(1, 1, ImageFormat::Rgba);
        s.set_z_order(z);
        scene.add(s);
    }
    scene.render();
    assert_eq!(ids(&scene), vec![0, 1]);
    scene.get_sprite_mut(0).unwrap().set_z_order(9);
    scene.render();
    assert_eq!(ids(&scene), vec![0, 1]);
    scene.mark_needs_sort();
    scene.render();
    assert_eq!(ids(&scene), vec![1, 0]);
    assert_eq!(z_orders(&scene), vec![2, 9]);
}

#[test]
fn get_sprite_mut_finds_by_id() {
    let mut scene = Scene::new(1, 1);
    scene.add(ImageSprite::new(1, 1, ImageFormat::Rgba));
    scene.add(ImageSprite::new(2, 2, ImageFormat::Rgba));
    assert_eq!(scene.get_sprite_mut(1).unwrap().width(), 2);
    assert_eq!(scene.get_sprite_mut(0).unwrap().width(), 1);
    assert!(scene.get_sprite_mut(2).is_none());
}

#[test]
fn opaque_fill_overwrites_the_background_exactly() {
    let mut scene = Scene::new(2, 2);
    scene.set_background_color(0, 255, 0, 255);
    let mut sprite = ImageSprite::create_rectangle(2, 2, 255, 0, 0, 255);
    sprite.set_samples(Some(covering(2, 2)));
    scene.add(sprite);
    scene.render();
    assert_eq!(
        scene.buffer(),
        &[255, 0, 0, 255, 255, 0, 0, 255, 255, 0, 0, 255, 255, 0, 0, 255][..]
    );
}

#[test]
fn half_alpha_fill_gives_the_midpoint() {
    let mut scene = Scene::new(2, 1);
    scene.set_background_color(100, 200, 250, 255);
    let mut sprite = ImageSprite::create_rectangle(2, 1, 200, 100, 50, 128);
    sprite.set_samples(Some(covering(2, 1)));
    scene.add(sprite);
    scene.render();
    assert_eq!(scene.buffer(), &[150, 149, 149, 255, 150, 149, 149, 255][..]);
}

#[test]
fn sprite_mapped_outside_its_bounds_leaves_the_background() {
    let mut scene = Scene::new(2, 2);
    scene.set_background_color(9, 8, 7, 255);
    let mut sprite = ImageSprite::create_rectangle(2, 2, 255, 255, 255, 255);
    let mut map = SampleMap::new(2, 2);
    for ty in 0..2 {
        for tx in 0..2 {
            map.set(tx, ty, Some((tx + 2, ty + 2)));
        }
    }
    sprite.set_samples(Some(map));
    scene.add(sprite);
    let mut unplaced = ImageSprite::create_rectangle(2, 2, 1, 1, 1, 255);
    unplaced.set_z_order(3);
    scene.add(unplaced);
    let mut blank = ImageSprite::create_rectangle(2, 2, 1, 1, 1, 255);
    blank.set_samples(Some(SampleMap::new(2, 2)));
    scene.add(blank);
    scene.render();
    assert_eq!(
        scene.buffer(),
        &[9, 8, 7, 255, 9, 8, 7, 255, 9, 8, 7, 255, 9, 8, 7, 255][..]
    );
}

#[test]
fn later_layers_lie_over_earlier_ones() {
    let mut scene = Scene::new(1, 1);
    scene.set_background_color(0, 0, 0, 255);
    let mut top = ImageSprite::create_rectangle(1, 1, 0, 0, 255, 128);
    top.set_z_order(2);
    top.set_samples(Some(covering(1, 1)));
    let mut bottom = ImageSprite::create_rectangle(1, 1, 255, 0, 0, 255);
    bottom.set_z_order(1);
    bottom.set_samples(Some(covering(1, 1)));
    scene.add(top);
    scene.add(bottom);
    scene.render();
    // Red over black is red; half blue over red: (0·128 + 255·127)/255 = 127.
    assert_eq!(scene.buffer(), &[127, 0, 128, 255][..]);
}

#[test]
fn translucent_layers_accumulate() {
    let mut scene = Scene::new(1, 1);
    scene.set_background_color(0, 0, 0, 255);
    for _ in 0..2 {
        let mut s = ImageSprite::create_rectangle(1, 1, 255, 255, 255, 128);
        s.set_samples(Some(covering(1, 1)));
        scene.add(s);
    }
    scene.render();
    // First layer: 255·128/255 = 128. Second: (255·128 + 128·127)/255 = 191.
    assert_eq!(scene.buffer(), &[191, 191, 191, 255][..]);
}

#[test]
fn render_twice_gives_the_same_frame() {
    let mut scene = Scene::new(2, 1);
    scene.set_background_color(10, 10, 10, 255);
    let mut s = ImageSprite::create_rectangle(1, 1, 200, 0, 0, 100);
    let mut map = SampleMap::new(2, 1);
    map.set(1, 0, Some((0, 0)));
    s.set_samples(Some(map));
    scene.add(s);
    scene.render();
    let first = scene.buffer().to_vec();
    scene.render();
    assert_eq!(scene.buffer(), &first[..]);
    // (200·100 + 10·155)/255 = 84, (0 + 10·155)/255 = 6.
    assert_eq!(first, vec![10, 10, 10, 255, 84, 6, 6, 255]);
}

#[test]
fn resize_gives_a_zeroed_raster_and_keeps_the_sprites() {
    let mut scene = Scene::new(2, 2);
    scene.set_background_color(255, 255, 255, 255);
    scene.add(ImageSprite::create_rectangle(1, 1, 1, 2, 3, 4));
    scene.render();
    scene.resize(3, 1);
    assert_eq!(scene.width(), 3);
    assert_eq!(scene.height(), 1);
    assert_eq!(scene.buffer(), &[0u8; 12][..]);
    assert_eq!(scene.sprite_count(), 1);
    assert_eq!(scene.sprites()[0].buffer(), &[1, 2, 3, 4][..]);
    scene.resize(1, 1);
    assert_eq!(scene.buffer(), &[0u8; 4][..]);
    scene.render();
    assert_eq!(scene.buffer(), &[255, 255, 255, 255][..]);
}

#[test]
fn clear_removes_all_sprites() {
    let mut scene = Scene::new(1, 1);
    scene.add(ImageSprite::new(1, 1, ImageFormat::Rgba));
    scene.add(ImageSprite::new(1, 1, ImageFormat::Rgba));
    scene.clear();
    assert!(scene.is_empty());
    assert_eq!(scene.sprite_count(), 0);
    let id = scene.add(ImageSprite::new(1, 1, ImageFormat::Rgba));
    assert_eq!(id, 2);
}

#[test]
fn sprite_partly_on_the_target() {
    let mut scene = Scene::new(2, 2);
    scene.set_background_color(0, 0, 0, 255);
    let mut sprite =
        ImageSprite::from_buffer(vec![10, 20, 30, 40], 2, 2, ImageFormat::Grayscale).unwrap();
    // The sprite's lower right pixel shows at the target's upper left.
    let mut map = SampleMap::new(2, 2);
    map.set(0, 0, Some((1, 1)));
    sprite.set_samples(Some(map));
    scene.add(sprite);
    scene.render();
    assert_eq!(
        scene.buffer(),
        &[40, 40, 40, 255, 0, 0, 0, 255, 0, 0, 0, 255, 0, 0, 0, 255][..]
    );
}
