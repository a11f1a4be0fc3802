use winstack::display::DisplayServer;
use winstack::fs::{FileSystem, FileType};
use winstack::gpu;
use winstack::rect::DirtyRect;
use winstack::wm::WindowManager;
use winstack::window::{WINDOW_CLOSABLE, WINDOW_MOVABLE, WINDOW_RESIZABLE};
use winstack::font::get_font_glyph;

fn fb_pixel(wm: &WindowManager, x: usize, y: usize) -> u32 {
    wm.ds.framebuffer[y * wm.ds.fb_pitch as usize + x]
}

#[test]
fn dirty_rect_union_and_clear() {
    let mut d = DirtyRect::new();
    assert!(!d.valid);
    let a = DirtyRect { x: 10, y: 10, width: 20, height: 20, valid: true };
    let b = DirtyRect { x: 0, y: 25, width: 5, height: 10, valid: true };
    d.union(&a);
    assert_eq!((d.x, d.y, d.width, d.height, d.valid), (10, 10, 20, 20, true));
    d.union(&b);
    assert_eq!((d.x, d.y, d.width, d.height), (0, 10, 30, 25));
    d.union(&DirtyRect::new());
    assert_eq!((d.x, d.y, d.width, d.height), (0, 10, 30, 25));
    d.clear();
    assert!(!d.valid);
}

#[test]
fn surface_buffer_zeroed_on_create() {
    let mut ds = DisplayServer::new(800, 600, 800);
    let id = ds.create_surface(10, 10, 64, 64, 0).unwrap();
    let buf = ds.get_surface_buffer(id).unwrap();
    assert!(buf.iter().take(64 * 64).all(|&p| p == 0));
}

#[test]
fn render_clears_dirty_bit() {
    let mut ds = DisplayServer::new(320, 200, 320);
    ds.mark_dirty(5, 5, 50, 50);
    assert!(ds.dirty_rect.valid);
    ds.render();
    assert!(!ds.dirty_rect.valid);
    ds.render();
    assert!(!ds.dirty_rect.valid);
}

#[test]
fn surface_fully_off_screen_paints_nothing() {
    let mut ds = DisplayServer::new(100, 100, 100);
    ds.render();
    let before = ds.backbuffer.clone();
    let id = ds.create_surface(200, 200, 50, 50, 1).unwrap();
    ds.clear_surface(id, 0xABCDEF);
    ds.render_surface_to_backbuffer(id);
    assert_eq!(before, ds.backbuffer);
}

#[test]
fn surface_partially_off_screen_clips() {
    let mut ds = DisplayServer::new(100, 100, 100);
    ds.render();
    let id = ds.create_surface(90, 90, 50, 50, 1).unwrap();
    ds.clear_surface(id, 0x123456);
    ds.render_surface_to_backbuffer(id);
    assert_eq!(ds.backbuffer[95 * 100 + 95], 0x123456);
    assert_eq!(ds.backbuffer[95 * 100 + 80], 0x0d1117);
    assert_eq!(ds.backbuffer[80 * 100 + 95], 0x0d1117);
}

#[test]
fn cursor_restore_returns_desktop_pixel() {
    let mut ds = DisplayServer::new(800, 600, 800);
    ds.update_cursor_position(50, 50);
    ds.render();
    assert_eq!(ds.framebuffer[50 * 800 + 50], 0xFFFFFF);
    ds.update_cursor_position(60, 60);
    ds.render();
    assert_eq!(ds.framebuffer[50 * 800 + 50], 0x0d1117);
    assert_eq!(ds.framebuffer[60 * 800 + 60], 0xFFFFFF);
}

#[test]
fn set_surface_position_idempotent_dirty() {
    let mut ds = DisplayServer::new(320, 200, 320);
    let id = ds.create_surface(10, 10, 20, 20, 0).unwrap();
    ds.render();
    ds.set_surface_position(id, 40, 40);
    let d1 = ds.dirty_rect;
    ds.set_surface_position(id, 40, 40);
    let d2 = ds.dirty_rect;
    assert_eq!((d1.x, d1.y, d1.width, d1.height, d1.valid), (d2.x, d2.y, d2.width, d2.height, d2.valid));
}

#[test]
fn create_draw_destroy_window() {
    let mut wm = WindowManager::new(800, 600, 800);
    let id = wm.create_window(b"W", 10, 10, 200, 150, WINDOW_MOVABLE | WINDOW_CLOSABLE).unwrap();
    wm.clear_window(id, 0x112233);
    wm.update();
    // title bar chrome at rows 10..30 of the screen
    assert_eq!(fb_pixel(&wm, 15, 12), 0x4a90e2);
    // the 'W' of the title: glyph drawn at window cell (4, 4), row 0 bit 1 set
    assert_eq!(fb_pixel(&wm, 10 + 4 + 1, 10 + 4), 0xffffff);
    // chrome covers the title bar only: the content area below it
    // keeps the client's clear color
    assert_eq!(fb_pixel(&wm, 15, 40), 0x112233);
    wm.destroy_window(id);
    wm.update();
    assert_eq!(fb_pixel(&wm, 15, 40), 0x0d1117);
    assert_eq!(fb_pixel(&wm, 15, 12), 0x0d1117);
}

#[test]
fn client_drawing_survives_until_update() {
    let mut wm = WindowManager::new(800, 600, 800);
    let id = wm.create_window(b"paint", 10, 10, 200, 150, 0).unwrap();
    wm.update();
    wm.clear_window(id, 0x112233);
    wm.draw_pixel_to_window(id, 5, 100, 0x00FF00);
    wm.draw_filled_rect_to_window(id, 20, 60, 10, 10, 0xAA55AA);
    wm.draw_rect_to_window(id, 40, 60, 10, 10, 0x0000FF);
    wm.invalidate_window(id);
    // render without re-running update (which would repaint chrome)
    wm.ds.mark_dirty(10, 10, 200, 150);
    wm.ds.render();
    assert_eq!(fb_pixel(&wm, 10 + 5, 10 + 100), 0x00FF00);
    assert_eq!(fb_pixel(&wm, 10 + 25, 10 + 65), 0xAA55AA);
    assert_eq!(fb_pixel(&wm, 10 + 40, 10 + 65), 0x0000FF);
    assert_eq!(fb_pixel(&wm, 10 + 45, 10 + 65), 0x112233);
}

#[test]
fn drag_preserves_grab_offset() {
    let mut wm = WindowManager::new(800, 600, 800);
    let id = wm.create_window(b"drag", 100, 100, 200, 200, WINDOW_MOVABLE).unwrap();
    wm.update();
    wm.handle_mouse(110, 105, true);
    wm.handle_mouse(130, 125, true);
    wm.handle_mouse(130, 125, false);
    let (x, y, w, h, _t) = wm.get_window_info(0).unwrap();
    assert_eq!((x, y, w, h), (120, 120, 200, 200));
    let _ = id;
    wm.update();
    assert_eq!(fb_pixel(&wm, 110, 110), 0x0d1117);
    assert_eq!(fb_pixel(&wm, 150, 135), 0x4a90e2);
}

#[test]
fn drag_clamps_to_screen() {
    let mut wm = WindowManager::new(800, 600, 800);
    wm.create_window(b"c", 100, 100, 200, 200, WINDOW_MOVABLE).unwrap();
    wm.update();
    wm.handle_mouse(110, 110, true);
    wm.handle_mouse(-500, -500, true);
    wm.handle_mouse(-500, -500, false);
    let (x, y, _, _, _t) = wm.get_window_info(0).unwrap();
    assert_eq!((x, y), (0, 0));
}

#[test]
fn click_brings_window_to_front() {
    let mut wm = WindowManager::new(800, 600, 800);
    let a = wm.create_window(b"A", 0, 0, 100, 100, 0).unwrap();
    let b = wm.create_window(b"B", 50, 50, 100, 100, 0).unwrap();
    wm.update();
    wm.handle_mouse(25, 25, true);
    wm.handle_mouse(25, 25, false);
    wm.update();
    // the overlap region shows A's content (its untouched, zeroed
    // buffer), not B's title bar
    assert_eq!(fb_pixel(&wm, 60, 60), 0x000000);
    let (_, _, _, _, title) = wm.get_window_info(1).unwrap();
    assert_eq!(title, b"A".to_vec());
    let _ = (a, b);
}

#[test]
fn equal_z_reassignment_is_stable() {
    let mut ds = DisplayServer::new(100, 100, 100);
    let a = ds.create_surface(0, 0, 10, 10, 5).unwrap();
    let b = ds.create_surface(5, 0, 10, 10, 5).unwrap();
    ds.clear_surface(a, 0xAA0000);
    ds.clear_surface(b, 0x00BB00);
    // re-assigning an equal z-order keeps the insertion order
    ds.set_surface_z_order(a, 5);
    assert_eq!(ds.z_list, vec![a as usize, b as usize]);
    ds.render();
    assert_eq!(ds.framebuffer[1 * 100 + 6], 0x00BB00);
    // a strictly greater one moves the surface past its peer
    ds.set_surface_z_order(a, 6);
    assert_eq!(ds.z_list, vec![b as usize, a as usize]);
    ds.render();
    assert_eq!(ds.framebuffer[1 * 100 + 6], 0xAA0000);
    // dropping back to the shared z-order keeps it where it stands
    ds.set_surface_z_order(a, 5);
    assert_eq!(ds.z_list, vec![b as usize, a as usize]);
}

#[test]
fn maximize_and_unmaximize_round_trip() {
    let mut wm = WindowManager::new(1024, 768, 1024);
    let id = wm.create_window(b"max", 50, 50, 300, 200, 0).unwrap();
    wm.update();
    wm.maximize_window(id);
    let (x, y, w, h, _t) = wm.get_window_info(0).unwrap();
    assert_eq!((x, y, w, h), (112, 84, 800, 600));
    wm.unmaximize_window(id);
    let (x, y, w, h, _t) = wm.get_window_info(0).unwrap();
    assert_eq!((x, y, w, h), (50, 50, 300, 200));
}

#[test]
fn maximize_full_screen_when_it_fits() {
    let mut wm = WindowManager::new(640, 480, 640);
    let id = wm.create_window(b"m", 50, 50, 300, 200, 0).unwrap();
    wm.maximize_window(id);
    let (x, y, w, h, _t) = wm.get_window_info(0).unwrap();
    assert_eq!((x, y, w, h), (0, 0, 640, 480));
}

#[test]
fn resize_clamps_to_minimum() {
    let mut wm = WindowManager::new(800, 600, 800);
    let id = wm.create_window(b"r", 100, 100, 200, 200, WINDOW_RESIZABLE).unwrap();
    wm.update();
    // grab the right border below the title bar
    wm.handle_mouse(298, 150, true);
    wm.handle_mouse(90, 150, true);
    wm.handle_mouse(90, 150, false);
    let (_, _, w, h, _t) = wm.get_window_info(0).unwrap();
    assert_eq!(w, 100);
    assert_eq!(h, 200);
    let _ = id;
}

#[test]
fn idle_release_outside_touches_nothing() {
    let mut wm = WindowManager::new(800, 600, 800);
    wm.create_window(b"idle", 10, 10, 100, 100, 0).unwrap();
    wm.update();
    let windows_before = wm.get_window_count();
    let bb_before = wm.ds.backbuffer.clone();
    wm.handle_mouse(700, 500, false);
    assert_eq!(wm.get_window_count(), windows_before);
    assert_eq!(wm.ds.backbuffer, bb_before);
    assert_eq!((wm.ds.mouse_x, wm.ds.mouse_y), (700, 500));
}

#[test]
fn minimize_excludes_window_from_hit_and_paint() {
    let mut wm = WindowManager::new(800, 600, 800);
    let id = wm.create_window(b"min", 10, 10, 100, 100, 0).unwrap();
    wm.update();
    wm.minimize_window(id);
    wm.update();
    assert_eq!(fb_pixel(&wm, 50, 50), 0x0d1117);
    wm.restore_window(id);
    wm.update();
    assert_eq!(fb_pixel(&wm, 50, 12), 0x4a90e2);
}

#[test]
fn window_pool_exhaustion_returns_none() {
    let mut wm = WindowManager::new(800, 600, 800);
    for i in 0..32 {
        let r = wm.create_window(b"w", 10, 10, 50, 50, 0);
        assert!(r.is_some(), "creation {} failed", i);
    }
    let count = wm.get_window_count();
    assert_eq!(count, 32);
    assert!(wm.create_window(b"extra", 10, 10, 50, 50, 0).is_none());
    assert_eq!(wm.get_window_count(), 32);
}

#[test]
fn close_button_destroys_window() {
    let mut wm = WindowManager::new(800, 600, 800);
    wm.create_window(b"x", 100, 100, 200, 150, WINDOW_CLOSABLE).unwrap();
    wm.update();
    // close button occupies the 16x16 box 18 pixels from the right edge
    wm.handle_mouse(100 + 200 - 18 + 8, 100 + 2 + 8, true);
    assert_eq!(wm.get_window_count(), 0);
}

#[test]
fn gpu_fill_and_blend_are_exact() {
    let mut buf = vec![0u32; 64];
    gpu::fill_rect(&mut buf, 8, 2, 1, 3, 2, 0xCAFE);
    assert_eq!(buf[1 * 8 + 2], 0xCAFE);
    assert_eq!(buf[2 * 8 + 4], 0xCAFE);
    assert_eq!(buf[0], 0);
    let mut dst = vec![0x000000u32; 4];
    let src = vec![0xFFFFFFu32; 4];
    gpu::alpha_blend(&mut dst, &src, 2, 2, 128);
    // per channel: (255 * 128 + 0 * 127) / 255 = 128
    assert_eq!(dst[0], 0x808080);
}

#[test]
fn gpu_command_queue_accepts_and_drains() {
    let mut q = gpu::CommandQueue::new();
    let cmd = gpu::GpuCommand { command_type: 3, data: [0; 16] };
    assert!(q.submit(&cmd));
    assert!(q.submit(&cmd));
    assert!(q.slots[0].is_some());
    q.process();
    assert_eq!(q.head, q.tail);
    assert!(q.slots.iter().all(|s| s.is_none()));
    let ctx = gpu::GpuContext::new(640, 480, 640);
    assert!(ctx.is_available());
}

#[test]
fn fs_default_files_and_round_trip() {
    let mut fs = FileSystem::new();
    fs.init();
    assert!(fs.file_exists(b"welcome.txt"));
    assert!(fs.file_exists(b"readme.txt"));
    assert!(fs.file_exists(b"demo.txt"));
    let data = fs.read_file(b"welcome.txt").unwrap();
    assert_eq!(data, b"Welcome to DEA OS!\nType 'help' for commands.\n".to_vec());
    assert!(fs.create_file(b"note.txt", FileType::Regular));
    assert!(!fs.create_file(b"note.txt", FileType::Regular));
    assert!(fs.write_file(b"note.txt", b"hi"));
    assert_eq!(fs.read_file(b"note.txt").unwrap(), b"hi".to_vec());
    assert!(fs.delete_file(b"note.txt"));
    assert!(!fs.file_exists(b"note.txt"));
    assert!(!fs.delete_file(b"note.txt"));
    assert!(!fs.write_file(b"big.txt", &[7u8; 2000]));
    assert!(!fs.file_exists(b"big.txt"));
    assert!(!fs.create_file(b"a_name_well_over_the_thirty_two_byte_cap.txt", FileType::Regular));
    assert!(fs.get_used_space() > 0);
    assert!(fs.get_free_space() > 0);
}

#[test]
fn font_glyph_table_matches() {
    let g = get_font_glyph(b'A');
    assert_eq!(g, [0x3C, 0x66, 0x66, 0x7E, 0x66, 0x66, 0x66, 0x00]);
    let blank = get_font_glyph(1);
    assert_eq!(blank, [0; 8]);
}

#[test]
fn wallpaper_samples_into_dirty_region() {
    let mut ds = DisplayServer::new(100, 100, 100);
    let pixels = vec![0x775533u32; 50 * 50];
    assert!(ds.set_wallpaper(&pixels, 50, 50));
    ds.render();
    assert_eq!(ds.framebuffer[80 * 100 + 80], 0x775533);
}
