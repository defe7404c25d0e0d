//! Image optimisation settings and the statistics of a run.
use vstd::prelude::*;
use crate::text::{
    decimal_of, mib_text, usize_to_decimal, i64_to_decimal, mib_string, lowercase_of, to_lowercase,
    chars_of, string_of, str_eq,
};

verus! {

/// How images are resized and re-encoded.
#[derive(Debug, Clone)]
pub struct ImageOptimizationConfig {
    /// Images wider than this are scaled down.
    pub max_width: u32,
    /// Images taller than this are scaled down.
    pub max_height: u32,
    /// JPEG quality, 0 to 100.
    pub jpeg_quality: u8,
    /// PNG compression level, 0 (fastest) to 10 (smallest).
    pub png_compression: u8,
    /// Whether WebP copies are written.
    pub enable_webp: bool,
    /// WebP quality, 0 to 100.
    pub webp_quality: u8,
}

impl Default for ImageOptimizationConfig {
    fn default() -> (r: Self)
        ensures
            r.max_width == 1920,
            r.max_height == 1080,
            r.jpeg_quality == 85,
            r.png_compression == 6,
            !r.enable_webp,
            r.webp_quality == 85,
    {
        ImageOptimizationConfig {
            max_width: 1920,
            max_height: 1080,
            jpeg_quality: 85,
            png_compression: 6,
            enable_webp: false,
            webp_quality: 85,
        }
    }
}

/// What an optimisation run did.
#[derive(Debug, Default)]
pub struct OptimizationStats {
    pub images_processed: usize,
    pub bytes_saved: i64,
    pub errors: usize,
}

impl OptimizationStats {
    pub open spec fn summary_text(&self) -> Seq<char> {
        "Processed "@ + decimal_of(self.images_processed as int) + " images, saved "@ + decimal_of(
            self.bytes_saved as int,
        ) + " bytes ("@ + mib_text(self.bytes_saved as int) + " MB), "@ + decimal_of(
            self.errors as int,
        ) + " errors"@
    }

    /// One line such as `"Processed 2 images, saved 1048576 bytes (1.00 MB), 0 errors"`.
    pub fn summary(&self) -> (r: String)
        ensures
            r@ == self.summary_text(),
    {
        let mut r = String::from_str("Processed ");
        r.append(usize_to_decimal(self.images_processed).as_str());
        r.append(" images, saved ");
        r.append(i64_to_decimal(self.bytes_saved).as_str());
        r.append(" bytes (");
        r.append(mib_string(self.bytes_saved).as_str());
        r.append(" MB), ");
        r.append(usize_to_decimal(self.errors).as_str());
        r.append(" errors");
        r
    }
}

/// The last component of a path written with `/`.
pub open spec fn file_name_of(p: Seq<char>) -> Seq<char>
    decreases p.len(),
{
    if p.len() == 0 || p.last() == '/' {
        Seq::empty()
    } else {
        file_name_of(p.drop_last()).push(p.last())
    }
}

/// The extension of a file name: what follows its last `.`, unless that dot
/// starts the name.
pub open spec fn extension_of(name: Seq<char>) -> Option<Seq<char>>
    decreases name.len(),
{
    if name.len() == 0 {
        None
    } else if name.last() == '.' {
        if name.len() > 1 { Some(Seq::empty()) } else { None }
    } else {
        match extension_of(name.drop_last()) {
            Some(e) => Some(e.push(name.last())),
            None => None,
        }
    }
}

pub open spec fn is_image_extension(lower: Seq<char>) -> bool {
    lower == "jpg"@ || lower == "jpeg"@ || lower == "png"@ || lower == "gif"@ || lower == "webp"@
        || lower == "bmp"@
}

fn extension(path: &str) -> (r: Option<String>)
    ensures
        match (r, extension_of(file_name_of(path@))) {
            (Some(e), Some(f)) => e@ == f,
            (None, None) => true,
            _ => false,
        },
{
    let cs = chars_of(path);
    let mut name_start: usize = 0;
    let mut ext: Option<Vec<char>> = None;
    let mut i: usize = 0;
    while i < cs.len()
        invariant
            i <= cs@.len(),
            name_start <= i,
            file_name_of(cs@.take(i as int)) == cs@.subrange(name_start as int, i as int),
            match (ext, extension_of(cs@.subrange(name_start as int, i as int))) {
                (Some(e), Some(f)) => e@ == f,
                (None, None) => true,
                _ => false,
            },
        decreases cs.len() - i,
    {
        let c = cs[i];
        let ghost before = cs@.subrange(name_start as int, i as int);
        assert(cs@.take(i + 1).drop_last() =~= cs@.take(i as int));
        if c == '/' {
            name_start = i + 1;
            ext = None;
            assert(cs@.subrange(name_start as int, i + 1) =~= Seq::<char>::empty());
        } else {
            assert(cs@.subrange(name_start as int, i + 1).drop_last() =~= before);
            if c == '.' {
                ext = if i > name_start { Some(Vec::new()) } else { None };
            } else {
                match ext {
                    Some(mut e) => {
                        e.push(c);
                        ext = Some(e);
                    },
                    None => {},
                }
            }
        }
        i += 1;
    }
    assert(cs@.take(cs.len() as int) =~= cs@);
    match ext {
        Some(e) => Some(string_of(&e)),
        None => None,
    }
}

/// Whether a path names an image: its extension, in any case, is one of
/// `jpg`, `jpeg`, `png`, `gif`, `webp` and `bmp`.
pub fn is_image_file(path: &str) -> (r: bool)
    ensures
        r == match extension_of(file_name_of(path@)) {
            Some(e) => is_image_extension(lowercase_of(e)),
            None => false,
        },
{
    match extension(path) {
        Some(e) => {
            let lower = to_lowercase(e.as_str());
            let l = lower.as_str();
            str_eq(l, "jpg") || str_eq(l, "jpeg") || str_eq(l, "png") || str_eq(l, "gif") || str_eq(l, "webp")
                || str_eq(l, "bmp")
        },
        None => false,
    }
}

} // verus!
