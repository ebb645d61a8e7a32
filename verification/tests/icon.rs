use quarry::icon::{is_preview, summary, write_icon, Picture, SIZES};

fn picture(size: u32, alpha: u8) -> Picture {
    let mut pixels = Vec::new();
    for i in 0..size * size {
        pixels.extend([(i % 251) as u8, (i % 13) as u8, 7, alpha]);
    }
    Picture { size, pixels }
}

#[test]
fn pictures_come_back_from_the_icon_file() {
    let images: Vec<Picture> = SIZES.iter().map(|s| picture(*s, 200)).collect();
    let expected: Vec<(u32, Vec<u8>)> =
        images.iter().map(|p| (p.size, p.pixels.clone())).collect();
    let bytes = write_icon(images).expect("written");
    let dir = ico::IconDir::read(std::io::Cursor::new(bytes)).expect("readable");
    assert_eq!(dir.resource_type(), ico::ResourceType::Icon);
    let got: Vec<(u32, Vec<u8>)> = dir
        .entries()
        .iter()
        .map(|e| (e.width(), e.decode().expect("decodable").rgba_data().to_vec()))
        .collect();
    assert_eq!(got, expected);
}

#[test]
fn an_icon_file_without_pictures() {
    assert_eq!(write_icon(Vec::new()), Some(vec![0, 0, 1, 0, 0, 0]));
}

#[test]
fn the_largest_picture_is_kept_as_a_file() {
    let kept: Vec<u32> = SIZES.iter().copied().filter(|s| is_preview(*s)).collect();
    assert_eq!(kept, vec![256]);
    assert_eq!(summary("a.ico", "b.png"), "ok: a.ico (7 resoluções) + b.png");
}
