use launcher::icon::{
    create_icon, icon_cache_key, image_request, IconCache, IconPlan, IconSource, ImageRequest,
    FALLBACK_ICON, ICON_SIZE,
};

fn themed(names: &[&str]) -> IconSource {
    IconSource::Themed(names.iter().map(|s| s.to_string()).collect())
}

#[test]
fn constants_are_those_of_the_launcher() {
    assert_eq!(FALLBACK_ICON, "application-x-executable");
    assert_eq!(ICON_SIZE, 32);
}

#[test]
fn keys_name_image_and_scale() {
    assert_eq!(icon_cache_key(&themed(&["gimp", "image"]), 2).as_deref(), Some("gimp@2"));
    assert_eq!(icon_cache_key(&themed(&[]), 2), None);
    assert_eq!(
        icon_cache_key(&IconSource::File(Some("/a b/c.png".to_string())), 1).as_deref(),
        Some("/a b/c.png@1")
    );
    assert_eq!(icon_cache_key(&IconSource::File(None), 1), None);
    assert_eq!(icon_cache_key(&IconSource::Other, 1), None);
    assert_eq!(icon_cache_key(&themed(&["x"]), -3).as_deref(), Some("x@-3"));
}

#[test]
fn keys_do_not_collide() {
    let a = icon_cache_key(&themed(&["a@1"]), 2);
    let b = icon_cache_key(&themed(&["a"]), 12);
    assert_ne!(a, b);
}

#[test]
fn requests_are_scaled() {
    assert!(matches!(
        image_request(&themed(&["gimp"]), 2),
        Some(ImageRequest::Themed { name, size: 64 }) if name == "gimp"
    ));
    assert!(matches!(
        image_request(&IconSource::File(Some("/x.png".to_string())), 1),
        Some(ImageRequest::File { path, size: 32 }) if path == "/x.png"
    ));
    assert!(image_request(&IconSource::Other, 1).is_none());
    assert!(image_request(&IconSource::File(None), 1).is_none());
}

#[test]
fn icon_without_source_falls_back() {
    let cache: IconCache<u8> = IconCache::new();
    assert!(matches!(create_icon(&None, 1, &cache), IconPlan::Fallback));
    assert!(matches!(create_icon(&Some(IconSource::Other), 1, &cache), IconPlan::Fallback));
    assert!(matches!(create_icon(&Some(themed(&[])), 1, &cache), IconPlan::Fallback));
}

#[test]
fn loaded_image_is_cached() {
    let mut cache: IconCache<u8> = IconCache::new();
    let icon = Some(themed(&["gimp"]));
    let key = match create_icon(&icon, 1, &cache) {
        IconPlan::Load { request, key } => {
            assert!(matches!(request, ImageRequest::Themed { size: 32, .. }));
            key
        }
        _ => panic!("not cached yet"),
    };
    assert_eq!(key, "gimp@1");
    assert_eq!(cache.finish_icon(key, Some(9)), Some(&9));
    assert!(matches!(create_icon(&icon, 1, &cache), IconPlan::Cached(&9)));
    assert!(matches!(create_icon(&icon, 2, &cache), IconPlan::Load { .. }));
}

#[test]
fn failed_load_is_not_cached() {
    let mut cache: IconCache<u8> = IconCache::new();
    assert_eq!(cache.finish_icon("gimp@1".to_string(), None), None);
    assert!(matches!(create_icon(&Some(themed(&["gimp"])), 1, &cache), IconPlan::Load { .. }));
}
