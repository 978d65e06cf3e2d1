use sexos::deps::DepWalk;
use sexos::forge::{
    app_dir, can_upgrade, render_template, template_dir, template_set, BaseTemplate, TemplateSet,
};
use sexos::gui::{
    package_for_key, precache_packages, request_name_field, GuiFrame, BACKGROUND, HINT_COLOR,
    ITEM_COLOR, TITLE_COLOR,
};
use sexos::sexbuild::{
    cook_plan, default_version, legacy_recipe, pack_spd, recipe_version, spd_bytes, store_key,
    verify_source_hash, with_default_build, Build, CookPlan, Package, PdxClient, Recipe, SexBuilder,
    Source, StoreError,
};

const ABC_SHA256: &str = "ba7816bf8f01cfea414140de5dae2223b00361a396177a9cb410ff61f20015ad";

#[test]
fn forge_templates() {
    assert_eq!(template_set(None), TemplateSet::Default);
    assert_eq!(
        template_set(Some(BaseTemplate::Servo)),
        TemplateSet::Base(BaseTemplate::Servo)
    );
    let out = render_template(b"name = \"{{app_name}}\"\n# {{app_name}}{{app_", b"calc");
    assert_eq!(out, b"name = \"calc\"\n# calc{{app_".to_vec());
    assert_eq!(render_template(b"", b"x"), Vec::<u8>::new());
    assert_eq!(render_template(b"{{app_name}}", b""), Vec::<u8>::new());
    assert_eq!(app_dir(b"calc"), b"apps/calc".to_vec());
    assert_eq!(template_dir(TemplateSet::Default), "default");
    assert_eq!(template_dir(template_set(Some(BaseTemplate::CosmicAppletNetwork))), "cosmic_applet_network");
    assert_eq!(template_dir(TemplateSet::Base(BaseTemplate::RedoxCalc)), "redox_calc");
    assert!(can_upgrade("terminal"));
    assert!(!can_upgrade("terminals"));
    assert!(!can_upgrade("panel"));
}

#[test]
fn store_client_replies() {
    let c = PdxClient::new();
    assert_eq!(c.slot, 4);
    assert_eq!(c.put_reply(0), Ok(()));
    assert_eq!(c.put_reply(3), Err(StoreError::PutFailed(3)));
    assert_eq!(c.get_reply(0x5000), Ok(0x5000));
    assert_eq!(c.get_reply(0), Err(StoreError::GetFailed));
    assert_eq!(c.get_reply(u64::MAX), Err(StoreError::GetFailed));
    assert!(c.exists_reply(1));
    assert!(!c.exists_reply(0));
    assert_eq!(c.alloc_pages(1), 1);
    assert_eq!(c.alloc_pages(4096), 1);
    assert_eq!(c.alloc_pages(4097), 2);
    assert_eq!(c.alloc_reply(0), Err(StoreError::AllocFailed));
    assert_eq!(c.alloc_reply(0x20_0000), Ok(0x20_0000));
}

#[test]
fn recipes() {
    assert_eq!(default_version(), "0.1.0");
    let legacy = legacy_recipe("bash");
    assert_eq!(legacy.package.as_ref().unwrap().name, "bash");
    assert_eq!(recipe_version(&legacy), "legacy");
    assert_eq!(cook_plan(&legacy), CookPlan::LegacyShell);
    let bare = Recipe { package: None, source: None, build: None };
    assert_eq!(recipe_version(&bare), "0.1.0");
    let bare = with_default_build(bare);
    assert_eq!(bare.build.as_ref().unwrap().template.as_deref(), Some("cargo"));
    assert_eq!(cook_plan(&bare), CookPlan::Build);
    let fetched = Recipe {
        package: Some(Package { name: "zlib".to_string(), version: "1.3".to_string() }),
        source: Some(Source { git: None, tar: Some("https://x/zlib.tar.gz".to_string()), sha256: None }),
        build: Some(Build { template: Some("cargo".to_string()), depends: None, manifest: None }),
    };
    assert_eq!(recipe_version(&fetched), "1.3");
    assert_eq!(cook_plan(&fetched), CookPlan::FetchThenBuild);
    let kept = with_default_build(fetched);
    assert_eq!(kept.build.unwrap().template.as_deref(), Some("cargo"));
    let b = SexBuilder::new();
    assert_eq!(b.recipes_dir, "recipes");
    assert_eq!(b.binpkgs_dir, "../binpkgs");
}

#[test]
fn source_checksums() {
    let h = verify_source_hash(ABC_SHA256, b"abc").unwrap();
    assert_eq!(h[0], 0xba);
    assert_eq!(h[31], 0xad);
    let m = verify_source_hash(ABC_SHA256, b"abd").err().unwrap();
    assert_eq!(m.expected, ABC_SHA256);
    assert_ne!(m.actual, ABC_SHA256);
    assert_eq!(m.actual.len(), 64);
    let upper = ABC_SHA256.to_uppercase();
    assert!(verify_source_hash(&upper, b"abc").is_err());
    let key = store_key(&upper).unwrap();
    assert_eq!(key, h);
    assert!(store_key("abc").is_none());
    assert!(store_key(&"g".repeat(64)).is_none());
}

#[test]
fn spd_layout() {
    let p = pack_spd("hello", "1.0", b"abc");
    assert_eq!(p.file_name, b"hello-1.0.spd".to_vec());
    assert_eq!(p.hash, store_key(ABC_SHA256).unwrap());
    assert_eq!(p.image.len(), 4096);
    assert_eq!(&p.image[..8], b"SEXPAC01");
    assert_eq!(&p.image[8..13], b"hello");
    assert!(p.image[13..40].iter().all(|b| *b == 0));
    assert_eq!(&p.image[40..48], &3u64.to_le_bytes());
    assert_eq!(&p.image[48..80], &p.hash);
    assert_eq!(&p.image[80..83], b"abc");
    assert!(p.image[83..].iter().all(|b| *b == 0));
    let data = vec![7u8; 4016];
    let img = spd_bytes(&[b'n'; 40], &data, &[1u8; 32]);
    assert_eq!(img.len(), 4096);
    assert_eq!(&img[8..40], &[b'n'; 32]);
    let img = spd_bytes(b"n", &vec![7u8; 4017], &[1u8; 32]);
    assert_eq!(img.len(), 8192);
}

#[test]
fn dependency_order() {
    let mut w = DepWalk::new("app");
    assert!(w.has_room(3));
    assert!(!w.has_room(usize::MAX - 1));
    let first = w.next_recipe().unwrap();
    assert_eq!(first, "app");
    w.add_recipe(&first, vec!["libc".to_string(), "zlib".to_string()]);
    let second = w.next_recipe().unwrap();
    assert_eq!(second, "zlib");
    w.add_recipe(&second, vec!["libc".to_string()]);
    let third = w.next_recipe().unwrap();
    assert_eq!(third, "libc");
    w.add_recipe(&third, vec![]);
    assert!(w.next_recipe().is_none());
    let order = w.build_order().unwrap();
    assert_eq!(order.len(), 3);
    let pos = |n: &str| order.iter().position(|s| s == n).unwrap();
    assert!(pos("libc") < pos("zlib"));
    assert!(pos("zlib") < pos("app"));
}

#[test]
fn dependency_cycle() {
    let mut w = DepWalk::new("a");
    let a = w.next_recipe().unwrap();
    w.add_recipe(&a, vec!["b".to_string()]);
    let b = w.next_recipe().unwrap();
    w.add_recipe(&b, vec!["a".to_string()]);
    assert!(w.next_recipe().is_none());
    assert!(w.build_order().is_none());
}

fn test_font() -> [[u8; 16]; 128] {
    let mut f = [[0u8; 16]; 128];
    f[b'A' as usize] = [0x80; 16];
    f
}

#[test]
fn frame_drawing() {
    let mut f = GuiFrame::new(16, 4);
    assert_eq!(f.pixels.len(), 64);
    f.fill_rect(2, 1, 3, 2, 9);
    for y in 0..4u32 {
        for x in 0..16u32 {
            let want = if (2..5).contains(&x) && (1..3).contains(&y) { 9 } else { 0 };
            assert_eq!(f.pixels[(y * 16 + x) as usize], want);
        }
    }
    let font = test_font();
    let mut g = GuiFrame::new(32, 20);
    g.draw_text(1, 2, &[b'A', 200, b'B', b'A'], 5, &font);
    let lit: Vec<usize> = (0..g.pixels.len()).filter(|k| g.pixels[*k] == 5).collect();
    let mut want = Vec::new();
    for y in 2..18usize {
        want.push(y * 32 + 1);
        want.push(y * 32 + 17);
    }
    want.sort();
    assert_eq!(lit, want);
    let mut h = GuiFrame::new(8, 8);
    h.draw_text(4, 4, b"A", 5, &font);
    assert_eq!(h.pixels.iter().filter(|p| **p == 5).count(), 4);
}

#[test]
fn widget_screen() {
    let font = test_font();
    let mut f = GuiFrame::new(200, 150);
    f.draw_widgets(&font);
    assert_eq!(f.pixels[0], BACKGROUND);
    assert_eq!(f.pixels[20 * 200 + 20], TITLE_COLOR);
    assert_eq!(f.pixels[20 * 200 + 21], BACKGROUND);
    assert_eq!(f.pixels[120 * 200 + 20], BACKGROUND);
    let _ = (ITEM_COLOR, HINT_COLOR);
}

#[test]
fn browser_packages() {
    let names = precache_packages();
    assert_eq!(names, vec![b"bash".to_vec(), b"coreutils".to_vec(), b"gcc".to_vec()]);
    assert_eq!(package_for_key(2), Some(b"bash".to_vec()));
    assert_eq!(package_for_key(3), None);
    let field = request_name_field(b"gcc");
    assert_eq!(&field[..3], b"gcc");
    assert!(field[3..].iter().all(|b| *b == 0));
}
