//! The icon of the program: pictures of several sizes in one icon file.
use crate::text;
use vstd::prelude::*;

verus! {

/// The sizes of the pictures in the icon, in pixels.
pub const SIZES: [u32; 7] = [16, 24, 32, 48, 64, 128, 256];

/// The directory of an icon file, of the crate `ico`.
#[verifier::external_type_specification]
#[verifier::external_body]
pub struct ExIconDir(ico::IconDir);

/// The entries of a directory: the width of each and its encoded data.
pub uninterp spec fn entries(dir: ico::IconDir) -> Seq<(u32, Seq<u8>)>;

/// Whether a directory is one of icons, not of cursors, and holds nothing but
/// square pictures as `ico::IconDirEntry::encode` makes them.
pub uninterp spec fn of_icons(dir: ico::IconDir) -> bool;

/// The data that `ico::IconDirEntry::encode` makes of a square picture, if it
/// can be encoded.
pub uninterp spec fn encoded(size: u32, pixels: Seq<u8>) -> Option<Seq<u8>>;

/// The icon file that `ico::IconDir::write` makes of entries, if it can.
pub uninterp spec fn icon_bytes(entries: Seq<(u32, Seq<u8>)>) -> Option<Seq<u8>>;

/// Calls `ico::IconDir::new` for icons: a directory of icons without an entry.
#[verifier::external_body]
fn empty_dir() -> (dir: ico::IconDir)
    ensures
        of_icons(dir),
        entries(dir) == Seq::<(u32, Seq<u8>)>::empty(),
{
    ico::IconDir::new(ico::ResourceType::Icon)
}

/// The bytes that entries take in an icon file, each with its line in the
/// directory.
pub open spec fn space_of(entries: Seq<(u32, Seq<u8>)>) -> int
    decreases entries.len(),
{
    if entries.len() == 0 {
        0
    } else {
        space_of(entries.drop_last()) + 16 + entries.last().1.len()
    }
}

/// Whether the offsets of an icon file, numbers of 32 bits, reach to its end.
pub open spec fn fits(entries: Seq<(u32, Seq<u8>)>) -> bool {
    6 + space_of(entries) <= u32::MAX
}

/// Calls `ico::IconDirEntry::encode` on a square picture,
/// `ico::IconDirEntry::data` and `ico::IconDir::add_entry`: where the picture can
/// be encoded, its data, which depend on its size and pixels alone, become the
/// last entry of the directory, and their length comes back; where it cannot,
/// the directory stays as it is. Which pictures cannot be encoded is left unsaid.
#[verifier::external_body]
fn add_picture(dir: &mut ico::IconDir, size: u32, pixels: Vec<u8>) -> (r: Option<usize>)
    requires
        of_icons(*old(dir)),
        1 <= size <= 256,
        pixels@.len() == 4 * size * size,
    ensures
        match r {
            Some(n) => encoded(size, pixels@) matches Some(data) && data.len() == n,
            None => encoded(size, pixels@) is None,
        },
        of_icons(*final(dir)),
        entries(*final(dir)) == match encoded(size, pixels@) {
            Some(data) => entries(*old(dir)).push((size, data)),
            None => entries(*old(dir)),
        },
{
    match ico::IconDirEntry::encode(&ico::IconImage::from_rgba_data(size, size, pixels)) {
        Ok(entry) => {
            let len: usize = entry.data().len();
            dir.add_entry(entry);
            Some(len)
        },
        Err(_) => None,
    }
}

/// Calls `ico::IconDir::write` into memory: the bytes of the icon file depend
/// on the entries and their order alone, since the colour depth that the file
/// gives for an encoded picture follows from its data.
#[verifier::external_body]
fn write_dir(dir: &ico::IconDir) -> (r: Option<Vec<u8>>)
    requires
        of_icons(*dir),
        fits(entries(*dir)),
    ensures
        match r {
            Some(b) => icon_bytes(entries(*dir)) == Some(b@),
            None => icon_bytes(entries(*dir)) is None,
        },
{
    let mut out: Vec<u8> = Vec::new();
    match dir.write(&mut out) {
        Ok(()) => Some(out),
        Err(_) => None,
    }
}

/// A square picture: its size and its pixels, four bytes each.
#[derive(Debug)]
pub struct Picture {
    pub size: u32,
    pub pixels: Vec<u8>,
}

impl Picture {
    /// The value of the picture.
    pub open spec fn model(self) -> (u32, Seq<u8>) {
        (self.size, self.pixels@)
    }

    /// Whether the picture has a size and all its pixels.
    pub open spec fn whole(self) -> bool {
        1 <= self.size <= 256 && self.pixels@.len() == 4 * self.size * self.size
    }
}

/// The values of pictures.
pub open spec fn picture_models(v: Seq<Picture>) -> Seq<(u32, Seq<u8>)> {
    v.map_values(|p: Picture| p.model())
}

/// The entries of the first `n` pictures; none if one of them cannot be
/// encoded.
pub open spec fn entries_of(pictures: Seq<(u32, Seq<u8>)>, n: int) -> Option<Seq<(u32, Seq<u8>)>>
    decreases n,
{
    if n <= 0 {
        Some(Seq::empty())
    } else {
        let (size, pixels) = pictures[n - 1];
        match (entries_of(pictures, n - 1), encoded(size, pixels)) {
            (Some(before), Some(data)) => Some(before.push((size, data))),
            _ => None,
        }
    }
}

/// The icon file of pictures: none if one of them cannot be encoded or if they
/// are too large for one file.
pub open spec fn icon_of(pictures: Seq<(u32, Seq<u8>)>) -> Option<Seq<u8>> {
    match entries_of(pictures, pictures.len() as int) {
        Some(e) => if fits(e) {
            icon_bytes(e)
        } else {
            None
        },
        None => None,
    }
}

proof fn lemma_not_encoded(pictures: Seq<(u32, Seq<u8>)>, n: int, m: int)
    requires
        n <= m,
        entries_of(pictures, n) is None,
    ensures
        entries_of(pictures, m) is None,
    decreases m,
{
    if n < m && m > 0 {
        lemma_not_encoded(pictures, n, m - 1);
    }
}

/// What does not fit does not fit with more behind it.
proof fn lemma_too_large(pictures: Seq<(u32, Seq<u8>)>, n: int, m: int)
    requires
        n <= m,
        entries_of(pictures, n) matches Some(e) && !fits(e),
    ensures
        entries_of(pictures, m) matches Some(e) ==> !fits(e),
    decreases m,
{
    if n < m && m > 0 {
        lemma_too_large(pictures, n, m - 1);
        if let Some(e) = entries_of(pictures, m) {
            assert(e.drop_last() =~= entries_of(pictures, m - 1)->0);
        }
    }
}

/// Writes the icon file of pictures.
pub fn write_icon(images: Vec<Picture>) -> (r: Option<Vec<u8>>)
    requires
        forall|i: int| 0 <= i < images@.len() ==> (#[trigger] images@[i]).whole(),
    ensures
        match r {
            Some(b) => icon_of(picture_models(images@)) == Some(b@),
            None => icon_of(picture_models(images@)) is None,
        },
{
    let ghost models = picture_models(images@);
    let mut dir: ico::IconDir = empty_dir();
    let n: usize = images.len();
    let mut space: u64 = 6;
    let mut i: usize = 0;
    while i < n
        invariant
            n == images@.len(),
            i <= n,
            models == picture_models(images@),
            forall|j: int| 0 <= j < images@.len() ==> (#[trigger] images@[j]).whole(),
            of_icons(dir),
            space == 6 + space_of(entries(dir)),
            fits(entries(dir)),
            entries_of(models, i as int) == Some(entries(dir)),
        decreases n - i,
    {
        let pixels: Vec<u8> = images[i].pixels.clone();
        proof {
            assert(images@[i as int].whole());
            assert(pixels@ =~= images@[i as int].pixels@);
            assert(models[i as int] == images@[i as int].model());
        }
        let ghost before = entries(dir);
        let len: usize = match add_picture(&mut dir, images[i].size, pixels) {
            Some(len) => len,
            None => {
                proof {
                    lemma_not_encoded(models, i + 1, n as int);
                }
                return None;
            },
        };
        proof {
            assert(entries(dir).drop_last() =~= before);
        }
        if len as u64 > u32::MAX as u64 || space + 16 + len as u64 > u32::MAX as u64 {
            proof {
                lemma_too_large(models, i + 1, n as int);
            }
            return None;
        }
        space = space + 16 + len as u64;
        i = i + 1;
    }
    write_dir(&dir)
}

/// Whether a picture is also kept as a file of its own.
pub fn is_preview(size: u32) -> (r: bool)
    ensures
        r == (size == 256),
{
    size == 256
}

/// What is said once the files are written.
pub fn summary(icon: &str, preview: &str) -> (r: String)
    ensures
        r@ == "ok: "@ + icon@ + " ("@ + text::decimal(7) + " resoluções) + "@ + preview@,
{
    let mut s: String = "ok: ".to_owned();
    s.append(icon);
    s.append(" (");
    s.append(text::write_decimal(SIZES.len() as u64).as_str());
    s.append(" resoluções) + ");
    s.append(preview);
    s
}

} // verus!
