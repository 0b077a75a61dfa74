use dminion::services::portrait::{PortraitService, PortraitSize, PortraitSubject};

#[test]
fn test_portrait_size_suffix() {
    assert_eq!(PortraitSize::Small.suffix(), ".small");
    assert_eq!(PortraitSize::Full.suffix(), ".full");
}

#[test]
fn test_portrait_size_alternate() {
    assert_eq!(PortraitSize::Small.alternate(), PortraitSize::Full);
    assert_eq!(PortraitSize::Full.alternate(), PortraitSize::Small);
}

#[test]
fn portrait_search_order() {
    let service = PortraitService::new(Some("/camp"), "/app", "/static");
    let paths = service.resolve("goblin", PortraitSize::Small);
    assert_eq!(paths.len(), 16);
    assert_eq!(paths[0], "/camp/portraits/goblin.small.webp");
    assert_eq!(paths[1], "/camp/portraits/goblin.small.png");
    assert_eq!(paths[3], "/camp/portraits/goblin.small.jpeg");
    assert_eq!(paths[4], "/camp/portraits/goblin.full.webp");
    assert_eq!(paths[8], "/app/portraits/goblin.small.webp");
    assert_eq!(paths[15], "/app/portraits/goblin.full.jpeg");
    let bare = PortraitService::new(None, "/app", "/static");
    let paths = bare.resolve("goblin", PortraitSize::Full);
    assert_eq!(paths.len(), 8);
    assert_eq!(paths[0], "/app/portraits/goblin.full.webp");
    assert_eq!(paths[6], "/app/portraits/goblin.small.jpg");
}

#[test]
fn portrait_placeholder() {
    let service = PortraitService::new(None, "/app", "/static");
    assert_eq!(
        service.placeholder(PortraitSize::Small, PortraitSubject::Monster),
        "/static/images/portraits/unknown-monster.small.jpg"
    );
    assert_eq!(
        service.placeholder(PortraitSize::Full, PortraitSubject::Player),
        "/static/images/portraits/unknown-player.full.jpg"
    );
}
