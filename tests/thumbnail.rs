use panolution::raster::Raster;
use panolution::thumbnail::{
    is_source_image, is_thumbnail_name, make_thumbnail, plan_thumbnail, thumbnail_size, ThumbnailPlan,
};

#[test]
fn plans_for_each_tier() {
    assert_eq!(plan_thumbnail(100, false), ThumbnailPlan::UseFullSize);
    assert_eq!(plan_thumbnail(100, true), ThumbnailPlan::UseFullSize);
    assert_eq!(plan_thumbnail(25, false), ThumbnailPlan::Generate);
    assert_eq!(plan_thumbnail(25, true), ThumbnailPlan::Reuse);
}

#[test]
fn second_seeding_reuses_thumbnail() {
    let mut exists = false;
    let mut generated = 0;
    for _ in 0..2 {
        match plan_thumbnail(50, exists) {
            ThumbnailPlan::Generate => {
                generated += 1;
                exists = true;
            },
            ThumbnailPlan::Reuse => {},
            ThumbnailPlan::UseFullSize => panic!("tier below full size"),
        }
    }
    assert_eq!(generated, 1);
    assert_eq!(plan_thumbnail(50, exists), ThumbnailPlan::Reuse);
}

#[test]
fn thumbnail_names() {
    assert!(is_thumbnail_name("thumb_25_a.jpg"));
    assert!(!is_thumbnail_name("thumbnail.jpg"));
    assert!(!is_thumbnail_name("thumb"));
    assert!(is_source_image("holiday.JPG"));
    assert!(!is_source_image("thumb_50_holiday.jpg"));
    assert!(!is_source_image("holiday.txt"));
}

#[test]
fn thumbnail_sizes() {
    assert_eq!(thumbnail_size(1000, 500, 25), (250, 125));
    assert_eq!(thumbnail_size(3, 3, 10), (1, 1));
    assert_eq!(thumbnail_size(640, 480, 100), (640, 480));
    assert_eq!(thumbnail_size(999, 7, 50), (499, 3));
}

#[test]
fn thumbnail_resizes_pixels() {
    let mut data = Vec::new();
    for y in 0..4u8 {
        for x in 0..4u8 {
            data.extend_from_slice(&[10 + x, 20 + y, 30]);
        }
    }
    let full = Raster { source_id: 9, path: "p.png".to_string(), width: 4, height: 4, data };
    let t = make_thumbnail(&full, 50, "thumb_50_p.png".to_string());
    assert_eq!((t.width, t.height), (2, 2));
    assert_eq!(t.data.len(), 12);
    assert_eq!(t.source_id, 9);
    assert_eq!(t.path, "thumb_50_p.png");
    for px in t.data.chunks(3) {
        assert!(px[0] >= 10 && px[0] < 14 && px[1] >= 20 && px[1] < 24 && px[2] == 30);
    }
    let same = make_thumbnail(&full, 100, "p.png".to_string());
    assert_eq!(same.data, full.data);
}
