//! The options of a run.
use vstd::prelude::*;

verus! {

/// The options of a run: the library's `AlbumData.xml`, the folder to
/// export into, whether to only report what would be done, and the one
/// album to export, if any.
pub struct Opts {
    pub iphoto_library_plist: String,
    pub album_export: String,
    pub dry_run: bool,
    pub album: Option<String>,
}

impl Opts {
    /// The options made of the given values.
    pub fn new(
        iphoto_library_plist: String,
        album_export: String,
        dry_run: bool,
        album: Option<String>,
    ) -> (r: Opts)
        ensures
            r.iphoto_library_plist == iphoto_library_plist,
            r.album_export == album_export,
            r.dry_run == dry_run,
            r.album == album,
    {
        Opts { iphoto_library_plist, album_export, dry_run, album }
    }
}

} // verus!
