use egui_glfw::command::GpuCommand;
use egui_glfw::error::RenderError;
use egui_glfw::texture::{Image, PixelFormat, TextureCache, TextureDelta, TextureId, TextureUpdate};

fn coverage(width: u32, height: u32, pixels: Vec<u8>) -> Image {
    Image::new(width, height, PixelFormat::Coverage, pixels).unwrap()
}

fn rgba(width: u32, height: u32, pixels: Vec<u8>) -> Image {
    Image::new(width, height, PixelFormat::Rgba, pixels).unwrap()
}

fn create(id: TextureId, image: Image) -> TextureUpdate {
    TextureUpdate { id, origin: None, image }
}

fn patch(id: TextureId, x: u32, y: u32, image: Image) -> TextureUpdate {
    TextureUpdate { id, origin: Some((x, y)), image }
}

fn delta(updates: Vec<TextureUpdate>, frees: Vec<TextureId>) -> TextureDelta {
    TextureDelta { updates, frees }
}

#[test]
fn image_needs_matching_byte_count() {
    assert!(Image::new(2, 2, PixelFormat::Coverage, vec![0, 1, 2, 3]).is_some());
    assert!(Image::new(2, 2, PixelFormat::Coverage, vec![0, 1, 2]).is_none());
    assert!(Image::new(2, 2, PixelFormat::Rgba, vec![0; 16]).is_some());
    assert!(Image::new(2, 2, PixelFormat::Rgba, vec![0; 4]).is_none());
    assert!(Image::new(0, 7, PixelFormat::Rgba, vec![]).is_some());
    assert!(Image::new(u32::MAX, u32::MAX, PixelFormat::Rgba, vec![0; 4]).is_none());
    assert_eq!(PixelFormat::Coverage.bytes_per_texel(), 1);
    assert_eq!(PixelFormat::Rgba.bytes_per_texel(), 4);
}

#[test]
fn image_texel_lookup() {
    let image = rgba(2, 2, (0u8..16).collect());
    assert_eq!(image.texel(0, 0, 0), Some(0));
    assert_eq!(image.texel(1, 0, 2), Some(6));
    assert_eq!(image.texel(0, 1, 0), Some(8));
    assert_eq!(image.texel(1, 1, 3), Some(15));
    assert_eq!(image.texel(2, 0, 0), None);
    assert_eq!(image.texel(0, 2, 0), None);
    assert_eq!(image.texel(0, 0, 4), None);
}

#[test]
fn image_write_patches_a_rectangle() {
    let mut image = coverage(4, 3, vec![0; 12]);
    let part = coverage(2, 2, vec![1, 2, 3, 4]);
    assert!(image.admits(1, 1, &part));
    image.write(1, 1, &part);
    assert_eq!(image.pixels, vec![0, 0, 0, 0, 0, 1, 2, 0, 0, 3, 4, 0]);
    assert_eq!(image.width, 4);
    assert_eq!(image.height, 3);
}

#[test]
fn image_write_patches_four_channel_texels() {
    let mut image = rgba(3, 2, vec![9; 24]);
    let part = rgba(1, 2, vec![1, 2, 3, 4, 5, 6, 7, 8]);
    image.write(2, 0, &part);
    assert_eq!(
        image.pixels,
        vec![9, 9, 9, 9, 9, 9, 9, 9, 1, 2, 3, 4, 9, 9, 9, 9, 9, 9, 9, 9, 5, 6, 7, 8]
    );
    assert_eq!(image.texel(2, 1, 1), Some(6));
    assert_eq!(image.texel(1, 1, 1), Some(9));
}

#[test]
fn image_write_of_whole_image_and_of_nothing() {
    let mut image = coverage(2, 2, vec![1, 2, 3, 4]);
    image.write(0, 0, &coverage(2, 2, vec![5, 6, 7, 8]));
    assert_eq!(image.pixels, vec![5, 6, 7, 8]);
    image.write(2, 2, &coverage(0, 0, vec![]));
    image.write(0, 1, &coverage(2, 0, vec![]));
    image.write(1, 0, &coverage(0, 2, vec![]));
    assert_eq!(image.pixels, vec![5, 6, 7, 8]);
}

#[test]
fn image_admits_only_what_fits() {
    let image = coverage(4, 3, vec![0; 12]);
    assert!(image.admits(0, 0, &coverage(4, 3, vec![0; 12])));
    assert!(image.admits(3, 2, &coverage(1, 1, vec![0])));
    assert!(!image.admits(3, 2, &coverage(2, 1, vec![0; 2])));
    assert!(!image.admits(3, 2, &coverage(1, 2, vec![0; 2])));
    assert!(!image.admits(u32::MAX, 0, &coverage(1, 1, vec![0])));
    assert!(!image.admits(0, 0, &rgba(1, 1, vec![0; 4])));
    assert!(image.admits(4, 3, &coverage(0, 0, vec![])));
}

#[test]
fn delta_validity() {
    assert!(TextureDelta::new().is_valid());
    let good = delta(vec![create(TextureId::Managed(0), coverage(1, 1, vec![7]))], vec![]);
    assert!(good.is_valid());
    let bad = delta(
        vec![create(
            TextureId::Managed(0),
            Image { width: 2, height: 2, format: PixelFormat::Coverage, pixels: vec![1] },
        )],
        vec![],
    );
    assert!(!bad.is_valid());
}

#[test]
fn create_then_read_back() {
    let mut cache = TextureCache::new(1 << 20);
    let mut commands = Vec::new();
    let id = TextureId::Managed(1);
    let d = delta(vec![create(id, coverage(2, 2, vec![0, 255, 0, 255]))], vec![]);
    assert_eq!(cache.apply_delta(&d, &mut commands), Ok(()));
    assert!(cache.contains(id));
    assert_eq!(cache.read_pixels(id), Some(vec![0, 255, 0, 255]));
    assert_eq!(cache.len(), 1);
    assert_eq!(cache.bytes_in_use(), 4);
    assert_eq!(cache.budget(), 1 << 20);
    assert_eq!(cache.handle_of(id), Some(0));
    let record = cache.get(id).unwrap();
    assert_eq!(record.id, id);
    assert_eq!(record.handle, 0);
    assert_eq!(record.image, coverage(2, 2, vec![0, 255, 0, 255]));
    assert_eq!(
        commands,
        vec![
            GpuCommand::AllocateTexture { handle: 0, width: 2, height: 2, format: PixelFormat::Coverage },
            GpuCommand::UploadPixels { handle: 0, x: 0, y: 0, width: 2, height: 2, update: 0 },
        ]
    );
}

#[test]
fn patch_within_bounds_reads_back_patched() {
    let mut cache = TextureCache::new(1 << 20);
    let mut commands = Vec::new();
    let id = TextureId::Managed(0);
    let d = delta(
        vec![
            create(id, coverage(4, 4, vec![0; 16])),
            patch(id, 1, 2, coverage(2, 2, vec![10, 20, 30, 40])),
            patch(id, 3, 0, coverage(1, 1, vec![99])),
            patch(id, 2, 3, coverage(2, 1, vec![7, 8])),
        ],
        vec![],
    );
    assert_eq!(cache.apply_delta(&d, &mut commands), Ok(()));
    assert_eq!(
        cache.read_pixels(id),
        Some(vec![0, 0, 0, 99, 0, 0, 0, 0, 0, 10, 20, 0, 0, 30, 7, 8])
    );
    assert_eq!(commands.len(), 5);
    assert_eq!(
        commands[2],
        GpuCommand::UploadPixels { handle: 0, x: 1, y: 2, width: 2, height: 2, update: 1 }
    );
    assert_eq!(
        commands[4],
        GpuCommand::UploadPixels { handle: 0, x: 2, y: 3, width: 2, height: 1, update: 3 }
    );
}

#[test]
fn patch_in_a_later_frame() {
    let mut cache = TextureCache::new(1 << 20);
    let mut commands = Vec::new();
    let id = TextureId::User(5);
    let first = delta(vec![create(id, rgba(2, 1, vec![1, 1, 1, 1, 2, 2, 2, 2]))], vec![]);
    assert_eq!(cache.apply_delta(&first, &mut commands), Ok(()));
    let second = delta(vec![patch(id, 1, 0, rgba(1, 1, vec![5, 6, 7, 8]))], vec![]);
    assert_eq!(cache.apply_delta(&second, &mut commands), Ok(()));
    assert_eq!(cache.read_pixels(id), Some(vec![1, 1, 1, 1, 5, 6, 7, 8]));
    assert_eq!(cache.bytes_in_use(), 8);
}

#[test]
fn patch_of_unknown_texture_is_dangling() {
    let mut cache = TextureCache::new(1 << 20);
    let mut commands = Vec::new();
    let id = TextureId::Managed(3);
    let d = delta(vec![patch(id, 0, 0, coverage(1, 1, vec![1]))], vec![]);
    assert_eq!(
        cache.apply_delta(&d, &mut commands),
        Err(RenderError::DanglingReference(id))
    );
    assert!(!cache.contains(id));
    assert_eq!(cache.read_pixels(id), None);
    assert_eq!(cache.get(id), None);
    assert_eq!(cache.handle_of(id), None);
    assert!(commands.is_empty());
    assert_eq!(RenderError::DanglingReference(id).texture(), id);
}

#[test]
fn patch_beyond_bounds_is_invalid() {
    let mut cache = TextureCache::new(1 << 20);
    let mut commands = Vec::new();
    let id = TextureId::Managed(0);
    let d = delta(
        vec![
            create(id, coverage(2, 2, vec![1, 2, 3, 4])),
            patch(id, 1, 1, coverage(2, 1, vec![9, 9])),
        ],
        vec![],
    );
    assert_eq!(cache.apply_delta(&d, &mut commands), Err(RenderError::InvalidPatch(id)));
    assert_eq!(cache.read_pixels(id), Some(vec![1, 2, 3, 4]));
    assert_eq!(commands.len(), 2);
}

#[test]
fn patch_of_other_format_is_invalid() {
    let mut cache = TextureCache::new(1 << 20);
    let mut commands = Vec::new();
    let id = TextureId::Managed(0);
    let d = delta(
        vec![
            create(id, coverage(2, 2, vec![1, 2, 3, 4])),
            patch(id, 0, 0, rgba(1, 1, vec![9, 9, 9, 9])),
        ],
        vec![],
    );
    assert_eq!(cache.apply_delta(&d, &mut commands), Err(RenderError::InvalidPatch(id)));
    assert_eq!(cache.read_pixels(id), Some(vec![1, 2, 3, 4]));
}

#[test]
fn failure_stops_the_updates_behind_it() {
    let mut cache = TextureCache::new(1 << 20);
    let mut commands = Vec::new();
    let a = TextureId::Managed(0);
    let b = TextureId::Managed(1);
    let c = TextureId::Managed(2);
    let d = delta(
        vec![
            create(a, coverage(1, 1, vec![1])),
            patch(b, 0, 0, coverage(1, 1, vec![2])),
            create(c, coverage(1, 1, vec![3])),
        ],
        vec![a],
    );
    assert_eq!(cache.apply_delta(&d, &mut commands), Err(RenderError::DanglingReference(b)));
    assert!(cache.contains(a));
    assert!(!cache.contains(b));
    assert!(!cache.contains(c));
    assert_eq!(commands.len(), 2);
    // The frees were queued all the same.
    assert_eq!(cache.pending_frees(), 1);
}

#[test]
fn allocation_fails_beyond_budget() {
    let mut cache = TextureCache::new(10);
    let mut commands = Vec::new();
    let a = TextureId::Managed(0);
    let b = TextureId::Managed(1);
    let d = delta(
        vec![create(a, coverage(3, 2, vec![0; 6])), create(b, coverage(5, 1, vec![0; 5]))],
        vec![],
    );
    assert_eq!(cache.apply_delta(&d, &mut commands), Err(RenderError::AllocationFailed(b)));
    assert!(cache.contains(a));
    assert!(!cache.contains(b));
    assert_eq!(cache.bytes_in_use(), 6);
    assert_eq!(commands.len(), 2);
    // Exactly up to the budget is fine.
    let fits = delta(vec![create(b, coverage(4, 1, vec![0; 4]))], vec![]);
    assert_eq!(cache.apply_delta(&fits, &mut commands), Ok(()));
    assert_eq!(cache.bytes_in_use(), 10);
    assert_eq!(RenderError::AllocationFailed(b).texture(), b);
}

#[test]
fn replacing_counts_only_the_difference() {
    let mut cache = TextureCache::new(10);
    let mut commands = Vec::new();
    let a = TextureId::Managed(0);
    let d = delta(vec![create(a, coverage(4, 2, vec![1; 8]))], vec![]);
    assert_eq!(cache.apply_delta(&d, &mut commands), Ok(()));
    let grow = delta(vec![create(a, coverage(5, 2, vec![2; 10]))], vec![]);
    assert_eq!(cache.apply_delta(&grow, &mut commands), Ok(()));
    assert_eq!(cache.bytes_in_use(), 10);
    let too_big = delta(vec![create(a, coverage(11, 1, vec![3; 11]))], vec![]);
    assert_eq!(cache.apply_delta(&too_big, &mut commands), Err(RenderError::AllocationFailed(a)));
    assert_eq!(cache.read_pixels(a), Some(vec![2; 10]));
    assert_eq!(cache.bytes_in_use(), 10);
}

#[test]
fn replace_keeps_handle_and_reallocates_on_new_size() {
    let mut cache = TextureCache::new(1 << 20);
    let mut commands = Vec::new();
    let id = TextureId::Managed(0);
    let first = delta(vec![create(id, coverage(2, 2, vec![1, 2, 3, 4]))], vec![]);
    assert_eq!(cache.apply_delta(&first, &mut commands), Ok(()));
    commands.clear();

    let same_size = delta(vec![create(id, coverage(2, 2, vec![5, 6, 7, 8]))], vec![]);
    assert_eq!(cache.apply_delta(&same_size, &mut commands), Ok(()));
    assert_eq!(
        commands,
        vec![GpuCommand::UploadPixels { handle: 0, x: 0, y: 0, width: 2, height: 2, update: 0 }]
    );
    assert_eq!(cache.read_pixels(id), Some(vec![5, 6, 7, 8]));
    commands.clear();

    let other_size = delta(vec![create(id, coverage(3, 1, vec![9, 9, 9]))], vec![]);
    assert_eq!(cache.apply_delta(&other_size, &mut commands), Ok(()));
    assert_eq!(
        commands,
        vec![
            GpuCommand::AllocateTexture { handle: 0, width: 3, height: 1, format: PixelFormat::Coverage },
            GpuCommand::UploadPixels { handle: 0, x: 0, y: 0, width: 3, height: 1, update: 0 },
        ]
    );
    assert_eq!(cache.bytes_in_use(), 3);
    commands.clear();

    let other_format = delta(vec![create(id, rgba(3, 1, vec![1; 12]))], vec![]);
    assert_eq!(cache.apply_delta(&other_format, &mut commands), Ok(()));
    assert_eq!(
        commands[0],
        GpuCommand::AllocateTexture { handle: 0, width: 3, height: 1, format: PixelFormat::Rgba }
    );
    assert_eq!(cache.len(), 1);
    assert_eq!(cache.handle_of(id), Some(0));
}

#[test]
fn frees_wait_until_applied() {
    let mut cache = TextureCache::new(1 << 20);
    let mut commands = Vec::new();
    let a = TextureId::Managed(0);
    let b = TextureId::User(0);
    let d = delta(
        vec![create(a, coverage(1, 1, vec![1])), create(b, coverage(1, 2, vec![2, 3]))],
        vec![a],
    );
    assert_eq!(cache.apply_delta(&d, &mut commands), Ok(()));
    assert!(cache.contains(a));
    assert_eq!(cache.pending_frees(), 1);
    commands.clear();
    cache.apply_frees(&mut commands);
    assert!(!cache.contains(a));
    assert!(cache.contains(b));
    assert_eq!(cache.pending_frees(), 0);
    assert_eq!(cache.bytes_in_use(), 2);
    assert_eq!(cache.len(), 1);
    assert_eq!(commands, vec![GpuCommand::ReleaseTexture { handle: 0 }]);
    assert_eq!(cache.handle_of(b), Some(1));
}

#[test]
fn freeing_unknown_or_twice_is_passed_over() {
    let mut cache = TextureCache::new(1 << 20);
    let mut commands = Vec::new();
    let a = TextureId::Managed(0);
    let d = delta(
        vec![create(a, coverage(1, 1, vec![1]))],
        vec![TextureId::Managed(7), a, a],
    );
    assert_eq!(cache.apply_delta(&d, &mut commands), Ok(()));
    commands.clear();
    cache.apply_frees(&mut commands);
    assert_eq!(commands, vec![GpuCommand::ReleaseTexture { handle: 0 }]);
    assert_eq!(cache.len(), 0);
    cache.apply_frees(&mut commands);
    assert_eq!(commands.len(), 1);
}

#[test]
fn handles_are_never_given_out_twice() {
    let mut cache = TextureCache::new(1 << 20);
    let mut commands = Vec::new();
    let a = TextureId::Managed(0);
    let first = delta(vec![create(a, coverage(1, 1, vec![1]))], vec![a]);
    assert_eq!(cache.apply_delta(&first, &mut commands), Ok(()));
    cache.apply_frees(&mut commands);
    let second = delta(vec![create(a, coverage(1, 1, vec![2]))], vec![]);
    assert_eq!(cache.apply_delta(&second, &mut commands), Ok(()));
    assert_eq!(cache.handle_of(a), Some(1));
    assert_eq!(cache.read_pixels(a), Some(vec![2]));
}

#[test]
fn managed_and_user_ids_are_distinct() {
    let mut cache = TextureCache::new(1 << 20);
    let mut commands = Vec::new();
    let d = delta(
        vec![
            create(TextureId::Managed(1), coverage(1, 1, vec![1])),
            create(TextureId::User(1), coverage(1, 1, vec![2])),
        ],
        vec![],
    );
    assert_eq!(cache.apply_delta(&d, &mut commands), Ok(()));
    assert_eq!(cache.len(), 2);
    assert_eq!(cache.read_pixels(TextureId::Managed(1)), Some(vec![1]));
    assert_eq!(cache.read_pixels(TextureId::User(1)), Some(vec![2]));
}

#[test]
fn single_update_appends_to_commands() {
    let mut cache = TextureCache::new(1 << 20);
    let mut commands = vec![GpuCommand::SetViewport { width: 1, height: 1 }];
    let id = TextureId::Managed(4);
    let update = create(id, coverage(1, 1, vec![1]));
    assert_eq!(cache.apply_update(&update, 9, &mut commands), Ok(()));
    assert_eq!(
        commands,
        vec![
            GpuCommand::SetViewport { width: 1, height: 1 },
            GpuCommand::AllocateTexture { handle: 0, width: 1, height: 1, format: PixelFormat::Coverage },
            GpuCommand::UploadPixels { handle: 0, x: 0, y: 0, width: 1, height: 1, update: 9 },
        ]
    );
    assert_eq!(update.image.duplicate(), update.image);
}
