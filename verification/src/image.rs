//! The images as the standalone modules handle them: its
//! listing quotes each line, its messages name a Dockerfile's directory
//! otherwise, and a failed build's message says that the build failed.
use vstd::prelude::*;

pub use crate::service::image::Image;
use crate::service::image::{
    byte_views, build_start, dockerfile_views, find_dockerfiles, found_dockerfiles, image_views,
    listed_images, listing_ok, messages_of, read_listing, start_build, BuildAction, Dockerfile,
    ImageBuild,
};
use crate::service::config::Config;
use crate::string_map::StringMap;

verus! {

/// Reads the images that `docker image ls` printed with each line quoted:
/// each non-empty line, without its first and last byte, holds the tag and,
/// after a space, the id whose first seven bytes are dropped.
pub fn get_created_image(output: &str) -> (r: StringMap<Image>)
    requires
        listing_ok(output@, true),
    ensures
        image_views(r@) == listed_images(output@, true),
{
    read_listing(output, true)
}

/// Starts building the images of all languages in the standalone modules.
pub fn build_images(config: Config) -> (r: (ImageBuild, BuildAction))
    ensures
        (r.0@, r.1@) == build_start(config, true),
        r.0.settings() == config,
        r.0.is_standalone(),
{
    start_build(config, true)
}

/// The Dockerfiles among the files of a directory tree, with the messages
/// of the standalone modules.
pub fn get_all_dockerfile(files: &Vec<Vec<u8>>) -> (r: Result<Vec<Dockerfile>, String>)
    ensures
        match (r, found_dockerfiles(byte_views(files@), messages_of(true))) {
            (Ok(ds), Ok(vs)) => dockerfile_views(ds@) == vs,
            (Err(e), Err(v)) => e@ == v,
            _ => false,
        },
{
    find_dockerfiles(
        files,
        "cannot not find parent dir",
        "cannot get dir name",
        "osstr cannot to str",
        "cannot tostring parent",
    )
}

} // verus!
