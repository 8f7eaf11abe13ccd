//! The images of the languages: which exist, which Dockerfiles mark a
//! language, which images to build, and the table of images afterwards.
use vstd::prelude::*;
use vstd::utf8::*;

use crate::common::docker_command::{build_image, build_image_command, plain, CommandView, DockerCommand};
use crate::common::util::string_from_utf8;
use crate::path::{bytes_eq, file_name, parent, path_file_name, path_parent};
use crate::service::config::Config;
use crate::string_map::StringMap;
use crate::text::{
    byte_len, byte_slice, byte_slice_text, can_slice, concat, is_boundary, split, split_by, texts,
    trim, trimmed, utf8_bytes,
};

verus! {

/// The image of a language.
pub struct Image {
    pub _image_id: String,
    pub _language_id: String,
}

/// The mathematical content of an `Image`.
pub struct ImageView {
    pub image_id: Seq<char>,
    pub language_id: Seq<char>,
}

impl View for Image {
    type V = ImageView;

    open spec fn view(&self) -> ImageView {
        ImageView { image_id: self._image_id@, language_id: self._language_id@ }
    }
}

/// The content of a table of images.
pub open spec fn image_views(m: Map<Seq<char>, Image>) -> Map<Seq<char>, ImageView> {
    m.map_values(|i: Image| i@)
}

/// `docker image ls --no-trunc --filter=reference=<prefix> --format=<format>`.
pub open spec fn list_images_command_view(prefix: Seq<char>, format: Seq<char>) -> CommandView {
    plain(seq!["image"@, "ls"@, "--no-trunc"@, "--filter=reference="@ + prefix, "--format="@ + format])
}

/// The command that lists the images of a repository, one `<tag> <id>` line each.
pub fn list_images_command(prefix: &str) -> (r: DockerCommand)
    ensures
        r@ == list_images_command_view(prefix@, "{{.Tag}} {{.ID}}"@),
{
    list_with_format(prefix, "{{.Tag}} {{.ID}}")
}

pub(crate) fn list_with_format(prefix: &str, format: &str) -> (r: DockerCommand)
    ensures
        r@ == list_images_command_view(prefix@, format@),
{
    let mut ws: Vec<String> = Vec::new();
    ws.push("image".to_owned());
    ws.push("ls".to_owned());
    ws.push("--no-trunc".to_owned());
    ws.push(concat("--filter=reference=", prefix));
    ws.push(concat("--format=", format));
    let r = DockerCommand { current_dir: None, args: ws };
    assert(r@.args =~= list_images_command_view(prefix@, format@).args);
    r
}

/// The part of a listing line that holds `<tag> <id>`: the line without its
/// last byte, and without its first byte too where the listing quotes lines.
pub open spec fn listed_part(line: Seq<char>, quoted: bool) -> Seq<char> {
    let n = utf8_bytes(line).len() as int;
    if quoted {
        byte_slice(line, 1, n - 1)
    } else {
        byte_slice(line, 0, n - 1)
    }
}

/// An image id without its first seven bytes, the `sha256:` of docker.
pub open spec fn image_id_of(id: Seq<char>) -> Seq<char> {
    byte_slice(id, 7, utf8_bytes(id).len() as int)
}

/// A listing line can be read: it is empty, or it can be cut as reading
/// cuts it and holds a tag and an id of at least seven bytes.
pub open spec fn listed_line_ok(line: Seq<char>, quoted: bool) -> bool {
    let n = utf8_bytes(line).len() as int;
    line.len() == 0 || {
        &&& if quoted {
            can_slice(line, 1, n - 1)
        } else {
            can_slice(line, 0, n - 1)
        }
        &&& split(listed_part(line, quoted), ' ').len() >= 2
        &&& can_slice(
            split(listed_part(line, quoted), ' ')[1],
            7,
            utf8_bytes(split(listed_part(line, quoted), ' ')[1]).len() as int,
        )
    }
}

/// Every line of a listing can be read.
pub open spec fn listing_ok(output: Seq<char>, quoted: bool) -> bool {
    forall|i: int|
        0 <= i < split(output, '\n').len() ==> #[trigger] listed_line_ok(
            split(output, '\n')[i],
            quoted,
        )
}

/// The images that listing lines name, by tag; later lines win.
pub open spec fn listed_entries(lines: Seq<Seq<char>>, quoted: bool) -> Map<Seq<char>, ImageView>
    decreases lines.len(),
{
    if lines.len() == 0 {
        Map::empty()
    } else {
        let before = listed_entries(lines.drop_last(), quoted);
        let line = lines.last();
        if line.len() == 0 {
            before
        } else {
            let parts = split(listed_part(line, quoted), ' ');
            before.insert(
                parts[0],
                ImageView { image_id: image_id_of(parts[1]), language_id: parts[0] },
            )
        }
    }
}

/// The tag and the id that a non-empty listing line names.
pub open spec fn listed_tag_and_id(line: Seq<char>, quoted: bool) -> (Seq<char>, Seq<char>) {
    (split(listed_part(line, quoted), ' ')[0], split(listed_part(line, quoted), ' ')[1])
}

/// A language has an image exactly where a non-empty listing line names
/// its tag; the image is the one that the last such line names, with that
/// line's id less its first seven bytes.
pub proof fn law_listing_last_line_wins(lines: Seq<Seq<char>>, quoted: bool, k: Seq<char>)
    ensures
        listed_entries(lines, quoted).contains_key(k) <==> exists|i: int|
            0 <= i < lines.len() && lines[i].len() > 0 && #[trigger] listed_tag_and_id(lines[i], quoted).0 == k,
        forall|i: int|
            0 <= i < lines.len() && lines[i].len() > 0 && #[trigger] listed_tag_and_id(lines[i], quoted).0 == k
                && (forall|j: int|
                i < j < lines.len() ==> !(lines[j].len() > 0 && listed_tag_and_id(lines[j], quoted).0 == k))
                ==> listed_entries(lines, quoted)[k] == (ImageView {
                image_id: image_id_of(listed_tag_and_id(lines[i], quoted).1),
                language_id: k,
            }),
    decreases lines.len(),
{
    if lines.len() > 0 {
        let rest = lines.drop_last();
        law_listing_last_line_wins(rest, quoted, k);
        let last = lines.len() - 1;
        assert(lines[last] == lines.last());
        if listed_entries(lines, quoted).contains_key(k) {
            if !(lines.last().len() > 0 && listed_tag_and_id(lines.last(), quoted).0 == k) {
                let i = choose|i: int|
                    0 <= i < rest.len() && rest[i].len() > 0 && #[trigger] listed_tag_and_id(rest[i], quoted).0 == k;
                assert(lines[i] == rest[i]);
            }
        }
        assert forall|i: int|
            0 <= i < lines.len() && lines[i].len() > 0 && #[trigger] listed_tag_and_id(lines[i], quoted).0
                == k implies listed_entries(lines, quoted).contains_key(k) by {
            if i < last {
                assert(rest[i] == lines[i]);
            }
        }
        assert forall|i: int|
            0 <= i < lines.len() && lines[i].len() > 0 && #[trigger] listed_tag_and_id(lines[i], quoted).0 == k
                && (forall|j: int|
                i < j < lines.len() ==> !(lines[j].len() > 0 && listed_tag_and_id(lines[j], quoted).0 == k))
                implies listed_entries(lines, quoted)[k] == (ImageView {
                image_id: image_id_of(listed_tag_and_id(lines[i], quoted).1),
                language_id: k,
            }) by {
            if i < last {
                assert(rest[i] == lines[i]);
                assert(!(lines[last].len() > 0 && listed_tag_and_id(lines[last], quoted).0 == k));
                assert forall|j: int| i < j < rest.len() implies !(rest[j].len() > 0
                    && listed_tag_and_id(rest[j], quoted).0 == k) by {
                    assert(rest[j] == lines[j]);
                }
            }
        }
    }
}

/// The images that a listing names, by tag.
pub open spec fn listed_images(output: Seq<char>, quoted: bool) -> Map<Seq<char>, ImageView> {
    listed_entries(split(output, '\n'), quoted)
}

fn line_is_readable(line: &str, quoted: bool) -> (r: bool)
    ensures
        r == listed_line_ok(line@, quoted),
{
    broadcast use vstd::utf8::encode_utf8_valid_utf8;

    if line.is_empty() {
        return true;
    }
    let n = byte_len(line);
    let from: usize = if quoted { 1 } else { 0 };
    if n < 1 || from > n - 1 || !is_boundary(line, from) || !is_boundary(line, n - 1) {
        return false;
    }
    let part = byte_slice_text(line, from, n - 1);
    let parts = split_by(part.as_str(), ' ');
    if parts.len() < 2 {
        return false;
    }
    let id = parts[1].as_str();
    assert(id@ == split(listed_part(line@, quoted), ' ')[1]);
    let m = byte_len(id);
    m >= 7 && is_boundary(id, 7) && is_boundary(id, m)
}

/// Whether every line of a listing can be read.
pub fn listing_is_readable(output: &str, quoted: bool) -> (r: bool)
    ensures
        r == listing_ok(output@, quoted),
{
    let lines = split_by(output, '\n');
    let mut i: usize = 0;
    while i < lines.len()
        invariant
            i <= lines@.len(),
            texts(lines@) == split(output@, '\n'),
            forall|k: int| 0 <= k < i ==> #[trigger] listed_line_ok(texts(lines@)[k], quoted),
        decreases lines@.len() - i,
    {
        if !line_is_readable(lines[i].as_str(), quoted) {
            assert(!listed_line_ok(texts(lines@)[i as int], quoted));
            return false;
        }
        i = i + 1;
    }
    true
}

/// Reads the images of a listing.
pub(crate) fn read_listing(output: &str, quoted: bool) -> (r: StringMap<Image>)
    requires
        listing_ok(output@, quoted),
    ensures
        image_views(r@) == listed_images(output@, quoted),
{
    let lines = split_by(output, '\n');
    let mut map: StringMap<Image> = StringMap::new();
    let mut i: usize = 0;
    assert(image_views(map@) =~= listed_entries(texts(lines@).subrange(0, 0), quoted));
    while i < lines.len()
        invariant
            i <= lines@.len(),
            texts(lines@) == split(output@, '\n'),
            listing_ok(output@, quoted),
            image_views(map@) =~= listed_entries(texts(lines@).subrange(0, i as int), quoted),
        decreases lines@.len() - i,
    {
        let ghost seen = texts(lines@).subrange(0, i + 1);
        assert(seen.drop_last() =~= texts(lines@).subrange(0, i as int));
        assert(seen.last() == lines@[i as int]@);
        let line = lines[i].as_str();
        assert(listed_line_ok(texts(lines@)[i as int], quoted));
        if !line.is_empty() {
            let n = byte_len(line);
            let from: usize = if quoted { 1 } else { 0 };
            let part = byte_slice_text(line, from, n - 1);
            let parts = split_by(part.as_str(), ' ');
            let id = parts[1].as_str();
            let image_id = byte_slice_text(id, 7, byte_len(id));
            let ghost before = map@;
            map.insert(
                parts[0].clone(),
                Image { _image_id: image_id, _language_id: parts[0].clone() },
            );
            assert(image_views(map@) =~= image_views(before).insert(
                parts@[0]@,
                ImageView { image_id: image_id_of(parts@[1]@), language_id: parts@[0]@ },
            ));
        }
        i = i + 1;
    }
    assert(texts(lines@).subrange(0, lines@.len() as int) =~= texts(lines@));
    map
}

/// Reads the images that `docker image ls` printed with the format of
/// `list_images_command`: each non-empty line, without its last byte, holds
/// the tag and, after a space, the id whose first seven bytes are dropped.
pub fn get_created_image(output: &str) -> (r: StringMap<Image>)
    requires
        listing_ok(output@, false),
    ensures
        image_views(r@) == listed_images(output@, false),
{
    read_listing(output, false)
}

/// The image id that `docker image build --quiet` printed: the output
/// without its first seven bytes, trimmed.
pub fn image_id_from_build_output(output: &str) -> (r: String)
    requires
        can_slice(output@, 7, utf8_bytes(output@).len() as int),
    ensures
        r@ == trim(image_id_of(output@)),
{
    let id = byte_slice_text(output, 7, byte_len(output));
    trimmed(id.as_str())
}

/// A directory that holds a Dockerfile.
pub struct Dockerfile {
    pub language_id: String,
    pub pwd: String,
}

/// The mathematical content of a `Dockerfile`.
pub struct DockerfileView {
    pub language_id: Seq<char>,
    pub pwd: Seq<char>,
}

impl View for Dockerfile {
    type V = DockerfileView;

    open spec fn view(&self) -> DockerfileView {
        DockerfileView { language_id: self.language_id@, pwd: self.pwd@ }
    }
}

/// The content of a list of Dockerfiles.
pub open spec fn dockerfile_views(v: Seq<Dockerfile>) -> Seq<DockerfileView> {
    v.map_values(|d: Dockerfile| d@)
}

/// The messages for the ways in which a Dockerfile's place cannot be read.
pub struct PlaceMessages {
    pub no_parent: Seq<char>,
    pub no_name: Seq<char>,
    pub name_not_text: Seq<char>,
    pub parent_not_text: Seq<char>,
}

/// The messages of the service.
pub open spec fn place_messages() -> PlaceMessages {
    PlaceMessages {
        no_parent: "cannot not find parent dir"@,
        no_name: "cannot get parent file name"@,
        name_not_text: "osstr cannot to str"@,
        parent_not_text: "cannot to string parent path"@,
    }
}

/// The file name of a Dockerfile.
pub open spec fn dockerfile_name() -> Seq<u8> {
    utf8_bytes("Dockerfile"@)
}

/// What the file at `path` tells: nothing where it is not a Dockerfile;
/// else the language, named by the directory that holds it, and that
/// directory, or the message of what cannot be read.
pub open spec fn dockerfile_at(path: Seq<u8>, m: PlaceMessages) -> Option<
    Result<DockerfileView, Seq<char>>,
> {
    if file_name(path) != Some(dockerfile_name()) {
        None
    } else {
        Some(
            match parent(path) {
                None => Err(m.no_parent),
                Some(dir) => match file_name(dir) {
                    None => Err(m.no_name),
                    Some(name) => if !valid_utf8(name) {
                        Err(m.name_not_text)
                    } else if !valid_utf8(dir) {
                        Err(m.parent_not_text)
                    } else {
                        Ok(DockerfileView { language_id: decode_utf8(name), pwd: decode_utf8(dir) })
                    },
                },
            },
        )
    }
}

/// The Dockerfiles among the files, in their order, or the message of the
/// first that cannot be read.
pub open spec fn found_dockerfiles(files: Seq<Seq<u8>>, m: PlaceMessages) -> Result<
    Seq<DockerfileView>,
    Seq<char>,
>
    decreases files.len(),
{
    if files.len() == 0 {
        Ok(Seq::empty())
    } else {
        match found_dockerfiles(files.drop_last(), m) {
            Err(e) => Err(e),
            Ok(ds) => match dockerfile_at(files.last(), m) {
                None => Ok(ds),
                Some(Err(e)) => Err(e),
                Some(Ok(d)) => Ok(ds.push(d)),
            },
        }
    }
}

/// Once the files up to `k` give an error, all the files give it.
proof fn lemma_found_error_persists(files: Seq<Seq<u8>>, k: int, m: PlaceMessages)
    requires
        0 <= k <= files.len(),
        found_dockerfiles(files.subrange(0, k), m) is Err,
    ensures
        found_dockerfiles(files, m) == found_dockerfiles(files.subrange(0, k), m),
    decreases files.len() - k,
{
    if k < files.len() {
        let next = files.subrange(0, k + 1);
        assert(next.drop_last() =~= files.subrange(0, k));
        lemma_found_error_persists(files, k + 1, m);
    } else {
        assert(files.subrange(0, k) =~= files);
    }
}

/// A Dockerfile found at a path is the file named `Dockerfile` there: its
/// directory, as text, is the path without the file's name, and its
/// language, as text, is that directory's own name. Any other file is
/// passed over.
pub proof fn law_dockerfile_names_its_directory(path: Seq<u8>, m: PlaceMessages)
    ensures
        file_name(path) != Some(dockerfile_name()) ==> dockerfile_at(path, m) is None,
        dockerfile_at(path, m) matches Some(Ok(d)) ==> {
            &&& file_name(path) == Some(dockerfile_name())
            &&& parent(path) == Some(utf8_bytes(d.pwd))
            &&& file_name(utf8_bytes(d.pwd)) == Some(utf8_bytes(d.language_id))
        },
{
    if let Some(Ok(d)) = dockerfile_at(path, m) {
        let dir = parent(path)->Some_0;
        let name = file_name(dir)->Some_0;
        decode_utf8_encode_utf8(dir);
        decode_utf8_encode_utf8(name);
    }
}

/// The file at `path` is a Dockerfile whose place cannot be read.
pub open spec fn unreadable(path: Seq<u8>, m: PlaceMessages) -> bool {
    dockerfile_at(path, m) matches Some(Err(_))
}

/// Every Dockerfile among the files is found, and each one found is a
/// Dockerfile of the files; the search fails exactly where some Dockerfile's
/// place cannot be read, with the message of the first such.
pub proof fn law_every_dockerfile_found(files: Seq<Seq<u8>>, m: PlaceMessages)
    ensures
        found_dockerfiles(files, m) matches Ok(ds) ==> {
            &&& forall|i: int|
                0 <= i < files.len() && #[trigger] dockerfile_at(files[i], m) is Some ==> (
                dockerfile_at(files[i], m) matches Some(Ok(d)) && ds.contains(d))
            &&& forall|j: int|
                0 <= j < ds.len() ==> exists|i: int|
                    0 <= i < files.len() && #[trigger] dockerfile_at(files[i], m) == Some(
                        Ok::<DockerfileView, Seq<char>>(#[trigger] ds[j]),
                    )
        },
        found_dockerfiles(files, m) matches Err(e) ==> exists|i: int|
            0 <= i < files.len() && #[trigger] dockerfile_at(files[i], m) == Some(
                Err::<DockerfileView, Seq<char>>(e),
            ) && forall|k: int| 0 <= k < i ==> !unreadable(#[trigger] files[k], m),
    decreases files.len(),
{
    if files.len() > 0 {
        let rest = files.drop_last();
        let last = files.len() - 1;
        law_every_dockerfile_found(rest, m);
        assert(files[last] == files.last());
        assert forall|k: int| 0 <= k < rest.len() implies files[k] == rest[k] by {}
        match found_dockerfiles(rest, m) {
            Err(e) => {
                let i = choose|i: int|
                    0 <= i < rest.len() && #[trigger] dockerfile_at(rest[i], m) == Some(
                        Err::<DockerfileView, Seq<char>>(e),
                    ) && forall|k: int| 0 <= k < i ==> !unreadable(#[trigger] rest[k], m);
                assert(dockerfile_at(files[i], m) == Some(Err::<DockerfileView, Seq<char>>(e)));
                assert forall|k: int| 0 <= k < i implies !unreadable(#[trigger] files[k], m) by {
                    assert(files[k] == rest[k]);
                }
            },
            Ok(before) => {
                match dockerfile_at(files.last(), m) {
                    Some(Err(e)) => {
                        assert(dockerfile_at(files[last], m) == Some(Err::<DockerfileView, Seq<char>>(e)));
                        assert forall|k: int| 0 <= k < last implies !unreadable(#[trigger] files[k], m) by {
                            assert(files[k] == rest[k]);
                            if dockerfile_at(rest[k], m) is Some {
                                assert(dockerfile_at(rest[k], m) is Some);
                            }
                        }
                    },
                    _ => {
                        let ds = found_dockerfiles(files, m)->Ok_0;
                        assert forall|i: int|
                            0 <= i < files.len() && #[trigger] dockerfile_at(files[i], m) is Some implies (
                            dockerfile_at(files[i], m) matches Some(Ok(d)) && ds.contains(d)) by {
                            if i < last {
                                assert(files[i] == rest[i]);
                                assert(dockerfile_at(rest[i], m) is Some);
                                let d = dockerfile_at(rest[i], m)->Some_0->Ok_0;
                                assert(before.contains(d));
                                let k = choose|k: int| 0 <= k < before.len() && before[k] == d;
                                assert(ds[k] == d);
                            } else {
                                let d = dockerfile_at(files[i], m)->Some_0->Ok_0;
                                assert(ds[ds.len() - 1] == d);
                            }
                        }
                        assert forall|j: int| 0 <= j < ds.len() implies exists|i: int|
                            0 <= i < files.len() && #[trigger] dockerfile_at(files[i], m) == Some(
                                Ok::<DockerfileView, Seq<char>>(#[trigger] ds[j]),
                            ) by {
                            if j < before.len() {
                                assert(ds[j] == before[j]);
                                let i = choose|i: int|
                                    0 <= i < rest.len() && #[trigger] dockerfile_at(rest[i], m) == Some(
                                        Ok::<DockerfileView, Seq<char>>(#[trigger] before[j]),
                                    );
                                assert(files[i] == rest[i]);
                            } else {
                                assert(dockerfile_at(files[last], m) == Some(
                                    Ok::<DockerfileView, Seq<char>>(ds[j]),
                                ));
                            }
                        }
                    },
                }
            },
        }
    }
}

/// The byte contents of a list of paths.
pub open spec fn byte_views(v: Seq<Vec<u8>>) -> Seq<Seq<u8>> {
    v.map_values(|p: Vec<u8>| p@)
}

fn read_place(
    path: &Vec<u8>,
    no_parent: &str,
    no_name: &str,
    name_not_text: &str,
    parent_not_text: &str,
) -> (r: Option<Result<Dockerfile, String>>)
    ensures
        ({
            let m = PlaceMessages {
                no_parent: no_parent@,
                no_name: no_name@,
                name_not_text: name_not_text@,
                parent_not_text: parent_not_text@,
            };
            match (r, dockerfile_at(path@, m)) {
                (None, None) => true,
                (Some(Ok(d)), Some(Ok(v))) => d@ == v,
                (Some(Err(e)), Some(Err(v))) => e@ == v,
                _ => false,
            }
        }),
{
    let is_dockerfile = match path_file_name(path) {
        Some(name) => bytes_eq(name.as_slice(), "Dockerfile".as_bytes()),
        None => false,
    };
    if !is_dockerfile {
        return None;
    }
    let dir = match path_parent(path) {
        Some(d) => d,
        None => {
            return Some(Err(no_parent.to_owned()));
        },
    };
    let name = match path_file_name(&dir) {
        Some(n) => n,
        None => {
            return Some(Err(no_name.to_owned()));
        },
    };
    let language_id = match string_from_utf8(name) {
        Ok(s) => s,
        Err(_) => {
            return Some(Err(name_not_text.to_owned()));
        },
    };
    let pwd = match string_from_utf8(dir) {
        Ok(s) => s,
        Err(_) => {
            return Some(Err(parent_not_text.to_owned()));
        },
    };
    Some(Ok(Dockerfile { language_id, pwd }))
}

pub(crate) fn find_dockerfiles(
    files: &Vec<Vec<u8>>,
    no_parent: &str,
    no_name: &str,
    name_not_text: &str,
    parent_not_text: &str,
) -> (r: Result<Vec<Dockerfile>, String>)
    ensures
        ({
            let m = PlaceMessages {
                no_parent: no_parent@,
                no_name: no_name@,
                name_not_text: name_not_text@,
                parent_not_text: parent_not_text@,
            };
            match (r, found_dockerfiles(byte_views(files@), m)) {
                (Ok(ds), Ok(vs)) => dockerfile_views(ds@) == vs,
                (Err(e), Err(v)) => e@ == v,
                _ => false,
            }
        }),
{
    let ghost m = PlaceMessages {
        no_parent: no_parent@,
        no_name: no_name@,
        name_not_text: name_not_text@,
        parent_not_text: parent_not_text@,
    };
    let mut out: Vec<Dockerfile> = Vec::new();
    let mut i: usize = 0;
    assert(byte_views(files@).subrange(0, 0) =~= Seq::<Seq<u8>>::empty());
    assert(dockerfile_views(out@) =~= Seq::<DockerfileView>::empty());
    while i < files.len()
        invariant
            i <= files@.len(),
            m == (PlaceMessages {
                no_parent: no_parent@,
                no_name: no_name@,
                name_not_text: name_not_text@,
                parent_not_text: parent_not_text@,
            }),
            found_dockerfiles(byte_views(files@).subrange(0, i as int), m) == Ok::<
                Seq<DockerfileView>,
                Seq<char>,
            >(dockerfile_views(out@)),
        decreases files@.len() - i,
    {
        let ghost seen = byte_views(files@).subrange(0, i + 1);
        assert(seen.drop_last() =~= byte_views(files@).subrange(0, i as int));
        assert(seen.last() == files@[i as int]@);
        match read_place(&files[i], no_parent, no_name, name_not_text, parent_not_text) {
            None => {},
            Some(Err(e)) => {
                proof {
                    lemma_found_error_persists(byte_views(files@), i + 1, m);
                }
                return Err(e);
            },
            Some(Ok(d)) => {
                let ghost prev = out@;
                out.push(d);
                assert(dockerfile_views(out@) =~= dockerfile_views(prev).push(d@));
            },
        }
        i = i + 1;
    }
    assert(byte_views(files@).subrange(0, files@.len() as int) =~= byte_views(files@));
    Ok(out)
}

/// The Dockerfiles among the files of a directory tree, given by their
/// paths as the walk found them: the directory that holds one names its
/// language and is where its image is built.
pub fn get_all_dockerfile(files: &Vec<Vec<u8>>) -> (r: Result<Vec<Dockerfile>, String>)
    ensures
        match (r, found_dockerfiles(byte_views(files@), place_messages())) {
            (Ok(ds), Ok(vs)) => dockerfile_views(ds@) == vs,
            (Err(e), Err(v)) => e@ == v,
            _ => false,
        },
{
    find_dockerfiles(
        files,
        "cannot not find parent dir",
        "cannot get parent file name",
        "osstr cannot to str",
        "cannot to string parent path",
    )
}

} // verus!

verus! {

/// The Dockerfiles whose image gets built: all of them, except, where the
/// service reuses images, those whose language already has one.
pub open spec fn to_build(
    ds: Seq<DockerfileView>,
    use_created_image: bool,
    existing: Map<Seq<char>, ImageView>,
) -> Seq<DockerfileView>
    decreases ds.len(),
{
    if ds.len() == 0 {
        Seq::empty()
    } else {
        let before = to_build(ds.drop_last(), use_created_image, existing);
        if use_created_image && existing.contains_key(ds.last().language_id) {
            before
        } else {
            before.push(ds.last())
        }
    }
}

/// The image build commands for the planned Dockerfiles, in their order.
pub open spec fn build_commands(plan: Seq<DockerfileView>, repository_name: Seq<char>) -> Seq<
    CommandView,
> {
    plan.map_values(|d: DockerfileView| build_image_command(d.pwd, repository_name, d.language_id))
}

/// Each planned Dockerfile gets one build, in the plan's order: the build
/// runs in that Dockerfile's own directory and tags the image
/// `<repository>:<its language>`.
pub proof fn law_each_build_in_its_own_directory(plan: Seq<DockerfileView>, repository_name: Seq<char>)
    ensures
        build_commands(plan, repository_name).len() == plan.len(),
        forall|j: int|
            0 <= j < plan.len() ==> {
                let c = #[trigger] build_commands(plan, repository_name)[j];
                &&& c.current_dir == Some(plan[j].pwd)
                &&& c.args.len() == 5
                &&& c.args[3] == "--tag="@ + repository_name + ":"@ + plan[j].language_id
                &&& c.args[4] == "."@
            },
{
    assert forall|j: int| 0 <= j < plan.len() implies {
        let c = #[trigger] build_commands(plan, repository_name)[j];
        &&& c.current_dir == Some(plan[j].pwd)
        &&& c.args.len() == 5
        &&& c.args[3] == "--tag="@ + repository_name + ":"@ + plan[j].language_id
        &&& c.args[4] == "."@
    } by {
        assert("--tag="@ + crate::common::docker_command::image_ref(repository_name, plan[j].language_id) =~= "--tag="@
            + repository_name + ":"@ + plan[j].language_id);
    }
}

/// The image that a build of `d` printed as its output.
pub open spec fn built_image(d: DockerfileView, output: Seq<char>) -> ImageView {
    ImageView { image_id: trim(image_id_of(output)), language_id: d.language_id }
}

/// The table of images with the built ones added, in the order of the builds.
pub open spec fn with_built(
    images: Map<Seq<char>, ImageView>,
    plan: Seq<DockerfileView>,
    outputs: Seq<Seq<char>>,
) -> Map<Seq<char>, ImageView>
    decreases plan.len(),
{
    if plan.len() == 0 || outputs.len() == 0 {
        images
    } else {
        with_built(images, plan.drop_last(), outputs.drop_last()).insert(
            plan.last().language_id,
            built_image(plan.last(), outputs.last()),
        )
    }
}

/// After the builds, a language that was built has the image that its last
/// build printed, its id cut after seven bytes and trimmed; any other
/// language keeps the image it had.
pub proof fn law_built_images_are_recorded(
    images: Map<Seq<char>, ImageView>,
    plan: Seq<DockerfileView>,
    outputs: Seq<Seq<char>>,
    k: Seq<char>,
)
    requires
        outputs.len() == plan.len(),
    ensures
        forall|j: int|
            0 <= j < plan.len() && #[trigger] plan[j].language_id == k && (forall|q: int|
                j < q < plan.len() ==> plan[q].language_id != k) ==> with_built(images, plan, outputs)
                .contains_key(k) && with_built(images, plan, outputs)[k] == (ImageView {
                image_id: trim(image_id_of(outputs[j])),
                language_id: k,
            }),
        (forall|j: int| 0 <= j < plan.len() ==> #[trigger] plan[j].language_id != k) ==> (
        with_built(images, plan, outputs).contains_key(k) == images.contains_key(k) && (
        images.contains_key(k) ==> with_built(images, plan, outputs)[k] == images[k])),
    decreases plan.len(),
{
    if plan.len() > 0 {
        let pr = plan.drop_last();
        let or = outputs.drop_last();
        law_built_images_are_recorded(images, pr, or, k);
        let last = plan.len() - 1;
        assert(plan[last] == plan.last());
        assert(outputs[last] == outputs.last());
        assert forall|j: int|
            0 <= j < plan.len() && #[trigger] plan[j].language_id == k && (forall|q: int|
                j < q < plan.len() ==> plan[q].language_id != k) implies with_built(images, plan, outputs)
                .contains_key(k) && with_built(images, plan, outputs)[k] == (ImageView {
                image_id: trim(image_id_of(outputs[j])),
                language_id: k,
            }) by {
            if j < last {
                assert(pr[j] == plan[j]);
                assert(or[j] == outputs[j]);
                assert(plan[last].language_id != k);
                assert forall|q: int| j < q < pr.len() implies pr[q].language_id != k by {
                    assert(pr[q] == plan[q]);
                }
            }
        }
        if forall|j: int| 0 <= j < plan.len() ==> #[trigger] plan[j].language_id != k {
            assert(plan[last].language_id != k);
            assert forall|j: int| 0 <= j < pr.len() implies #[trigger] pr[j].language_id != k by {
                assert(pr[j] == plan[j]);
            }
        }
    }
}

/// The message of the first failed build, where one failed.
pub open spec fn first_failure(outcomes: Seq<Result<Seq<char>, Seq<char>>>) -> Option<Seq<char>>
    decreases outcomes.len(),
{
    if outcomes.len() == 0 {
        None
    } else {
        match first_failure(outcomes.drop_last()) {
            Some(e) => Some(e),
            None => match outcomes.last() {
                Err(e) => Some(e),
                Ok(_) => None,
            },
        }
    }
}

/// Once a build among the first `k` failed, the first failure is among them.
proof fn lemma_first_failure_persists(outcomes: Seq<Result<Seq<char>, Seq<char>>>, k: int)
    requires
        0 <= k <= outcomes.len(),
        first_failure(outcomes.subrange(0, k)) is Some,
    ensures
        first_failure(outcomes) == first_failure(outcomes.subrange(0, k)),
    decreases outcomes.len() - k,
{
    if k < outcomes.len() {
        assert(outcomes.subrange(0, k + 1).drop_last() =~= outcomes.subrange(0, k));
        lemma_first_failure_persists(outcomes, k + 1);
    } else {
        assert(outcomes.subrange(0, k) =~= outcomes);
    }
}

/// The outputs of the builds that succeeded; a failed one leaves nothing.
pub open spec fn outputs_of(outcomes: Seq<Result<Seq<char>, Seq<char>>>) -> Seq<Seq<char>> {
    outcomes.map_values(
        |o: Result<Seq<char>, Seq<char>>|
            match o {
                Ok(s) => s,
                Err(_) => Seq::<char>::empty(),
            },
    )
}

/// A build's outcome can be read: where it succeeded, its output can be cut
/// after seven bytes.
pub open spec fn build_outcome_ok(o: Result<Seq<char>, Seq<char>>) -> bool {
    match o {
        Ok(s) => can_slice(s, 7, utf8_bytes(s).len() as int),
        Err(_) => true,
    }
}

/// What a receiver gets from a worker that panicked: the message of
/// `std::sync::mpsc::RecvError`.
pub open spec fn closed_channel_message() -> Seq<char> {
    "receiving on a closed channel"@
}

/// What a build's outcome comes to: its output where it can be cut after
/// seven bytes; a failure's message, prefixed in the standalone modules; and
/// for an output too short to cut, the cut panics the worker that built it,
/// so its result is received from a closed channel.
pub open spec fn build_result(o: Result<Seq<char>, Seq<char>>, standalone: bool) -> Result<
    Seq<char>,
    Seq<char>,
> {
    match o {
        Err(e) => Err(failure_text(e, standalone)),
        Ok(s) => if build_outcome_ok(o) {
            Ok(s)
        } else {
            Err(closed_channel_message())
        },
    }
}

/// What the outcomes of the builds come to, in order.
pub open spec fn build_results(outcomes: Seq<Result<Seq<char>, Seq<char>>>, standalone: bool) -> Seq<
    Result<Seq<char>, Seq<char>>,
> {
    outcomes.map_values(|o: Result<Seq<char>, Seq<char>>| build_result(o, standalone))
}

/// The building fails exactly where some build's outcome is a failure; it
/// fails with the first one, in the order of the builds. A failed build
/// gives its error output, prefixed in the standalone modules; an output
/// too short to cut gives the message of a closed channel.
pub proof fn law_first_failed_build_decides(outcomes: Seq<Result<Seq<char>, Seq<char>>>, standalone: bool)
    ensures
        forall|i: int|
            0 <= i < outcomes.len() ==> (#[trigger] build_results(outcomes, standalone)[i] == match outcomes[i] {
                Err(e) => Err(if standalone {
                    "构建镜像失败："@ + e
                } else {
                    e
                }),
                Ok(out) => if can_slice(out, 7, utf8_bytes(out).len() as int) {
                    Ok::<Seq<char>, Seq<char>>(out)
                } else {
                    Err("receiving on a closed channel"@)
                },
            }),
        first_failure(build_results(outcomes, standalone)) is None <==> forall|i: int|
            0 <= i < outcomes.len() ==> #[trigger] build_results(outcomes, standalone)[i] is Ok,
        first_failure(build_results(outcomes, standalone)) matches Some(e) ==> exists|i: int|
            0 <= i < outcomes.len() && #[trigger] build_results(outcomes, standalone)[i] == Err::<
                Seq<char>,
                Seq<char>,
            >(e) && forall|q: int| 0 <= q < i ==> build_results(outcomes, standalone)[q] is Ok,
    decreases outcomes.len(),
{
    let rs = build_results(outcomes, standalone);
    if outcomes.len() > 0 {
        let pre = outcomes.drop_last();
        law_first_failed_build_decides(pre, standalone);
        let rp = build_results(pre, standalone);
        assert(rs.drop_last() =~= rp);
        let last = outcomes.len() - 1;
        assert(rs[last] == rs.last());
        assert forall|i: int| 0 <= i < last implies rs[i] == rp[i] by {}
        if first_failure(rs) is None {
            assert forall|i: int| 0 <= i < outcomes.len() implies #[trigger] rs[i] is Ok by {
                if i < last {
                    assert(rp[i] is Ok);
                }
            }
        }
        if forall|i: int| 0 <= i < outcomes.len() ==> #[trigger] rs[i] is Ok {
            assert forall|i: int| 0 <= i < pre.len() implies #[trigger] rp[i] is Ok by {
                assert(rs[i] is Ok);
            }
            assert(rs.last() is Ok);
        }
        if let Some(e) = first_failure(rs) {
            if let Some(e2) = first_failure(rp) {
                let i = choose|i: int|
                    0 <= i < pre.len() && #[trigger] rp[i] == Err::<Seq<char>, Seq<char>>(e2)
                        && forall|q: int| 0 <= q < i ==> rp[q] is Ok;
                assert(rs[i] == rp[i]);
                assert forall|q: int| 0 <= q < i implies rs[q] is Ok by {
                    assert(rs[q] == rp[q]);
                }
            } else {
                assert(rs[last] == Err::<Seq<char>, Seq<char>>(e));
                assert forall|q: int| 0 <= q < last implies rs[q] is Ok by {
                    assert(rp[q] is Ok);
                }
            }
        }
    }
}

/// Where the building of the images stands.
pub enum BuildStage {
    Listing,
    Walking,
    Building(Seq<DockerfileView>),
    Finished,
}

/// The stage and the images known so far.
pub struct BuildState {
    pub stage: BuildStage,
    pub images: Map<Seq<char>, ImageView>,
}

/// What the building asks for next.
pub enum BuildStep {
    List(CommandView),
    Walk(Seq<char>),
    BuildAll(Seq<CommandView>),
    Finish(Result<Map<Seq<char>, ImageView>, Seq<char>>),
}

/// What came of what the building asked for.
pub enum BuildEventView {
    Listed(Result<Seq<char>, Seq<char>>),
    Walked(Seq<Seq<u8>>, Option<Seq<char>>),
    Built(Seq<Result<Seq<char>, Seq<char>>>),
}

/// Whether the standalone modules are meant: it quotes listing
/// lines, names a Dockerfile's directory differently in its messages and
/// prefixes the message of a failed build.
pub open spec fn failure_text(e: Seq<char>, standalone: bool) -> Seq<char> {
    if standalone {
        "构建镜像失败："@ + e
    } else {
        e
    }
}

/// The messages for unreadable Dockerfile places of either layout.
pub open spec fn messages_of(standalone: bool) -> PlaceMessages {
    if standalone {
        PlaceMessages {
            no_parent: "cannot not find parent dir"@,
            no_name: "cannot get dir name"@,
            name_not_text: "osstr cannot to str"@,
            parent_not_text: "cannot tostring parent"@,
        }
    } else {
        place_messages()
    }
}

/// An event fits the stage it comes in, and what it holds can be read: a
/// listing must be readable, and the builds give one outcome each.
pub open spec fn event_fits(s: BuildState, ev: BuildEventView, standalone: bool) -> bool {
    match (s.stage, ev) {
        (BuildStage::Listing, BuildEventView::Listed(o)) => match o {
            Ok(out) => listing_ok(out, standalone),
            Err(_) => true,
        },
        (BuildStage::Walking, BuildEventView::Walked(_, _)) => true,
        (BuildStage::Building(plan), BuildEventView::Built(outcomes)) => outcomes.len()
            == plan.len(),
        _ => false,
    }
}

/// One step of building the images.
pub open spec fn build_step(config: Config, standalone: bool, s: BuildState, ev: BuildEventView) -> (
    BuildState,
    BuildStep,
) {
    let finish = |r: Result<Map<Seq<char>, ImageView>, Seq<char>>|
        (BuildState { stage: BuildStage::Finished, images: Map::empty() }, BuildStep::Finish(r));
    match (s.stage, ev) {
        (BuildStage::Listing, BuildEventView::Listed(o)) => match o {
            Err(e) => finish(Err(e)),
            Ok(out) => (
                BuildState { stage: BuildStage::Walking, images: listed_images(out, standalone) },
                BuildStep::Walk(config.dockerfile_dir@),
            ),
        },
        (BuildStage::Walking, BuildEventView::Walked(files, stopped)) => match found_dockerfiles(
            files,
            messages_of(standalone),
        ) {
            Err(e) => finish(Err(e)),
            Ok(ds) => match stopped {
                Some(e) => finish(Err(e)),
                None => {
                    let plan = to_build(ds, config.use_created_image, s.images);
                    (
                        BuildState { stage: BuildStage::Building(plan), images: s.images },
                        BuildStep::BuildAll(build_commands(plan, config.repository_name@)),
                    )
                },
            },
        },
        (BuildStage::Building(plan), BuildEventView::Built(outcomes)) => match first_failure(
            build_results(outcomes, standalone),
        ) {
            Some(e) => finish(Err(e)),
            None => finish(Ok(with_built(s.images, plan, outputs_of(outcomes)))),
        },
        _ => (s, BuildStep::Finish(Err(Seq::empty()))),
    }
}

/// What came of what the building asked for. A walk of the Dockerfile
/// directory gives the files it found, in the order it found them, and the
/// error that stopped it, if one did.
pub enum BuildEvent {
    Listed(Result<String, String>),
    Walked(Vec<Vec<u8>>, Option<String>),
    Built(Vec<Result<String, String>>),
}

/// The outcomes of commands by their texts.
pub open spec fn outcome_views(v: Seq<Result<String, String>>) -> Seq<Result<Seq<char>, Seq<char>>> {
    v.map_values(
        |o: Result<String, String>|
            match o {
                Ok(s) => Ok(s@),
                Err(e) => Err(e@),
            },
    )
}

impl View for BuildEvent {
    type V = BuildEventView;

    open spec fn view(&self) -> BuildEventView {
        match self {
            BuildEvent::Listed(o) => BuildEventView::Listed(
                match o {
                    Ok(s) => Ok(s@),
                    Err(e) => Err(e@),
                },
            ),
            BuildEvent::Walked(files, stopped) => BuildEventView::Walked(
                byte_views(files@),
                match stopped {
                    Some(e) => Some(e@),
                    None => None,
                },
            ),
            BuildEvent::Built(v) => BuildEventView::Built(outcome_views(v@)),
        }
    }
}

/// What the building asks for next.
pub enum BuildAction {
    ListImages(DockerCommand),
    FindDockerfiles(String),
    BuildAll(Vec<DockerCommand>),
    Finish(Result<StringMap<Image>, String>),
}

/// The contents of a list of commands.
pub open spec fn command_views(v: Seq<DockerCommand>) -> Seq<CommandView> {
    v.map_values(|c: DockerCommand| c@)
}

impl View for BuildAction {
    type V = BuildStep;

    open spec fn view(&self) -> BuildStep {
        match self {
            BuildAction::ListImages(c) => BuildStep::List(c@),
            BuildAction::FindDockerfiles(d) => BuildStep::Walk(d@),
            BuildAction::BuildAll(v) => BuildStep::BuildAll(command_views(v@)),
            BuildAction::Finish(r) => BuildStep::Finish(
                match r {
                    Ok(m) => Ok(image_views(m@)),
                    Err(e) => Err(e@),
                },
            ),
        }
    }
}

enum BuildPhase {
    Listing,
    Walking,
    Building(Vec<Dockerfile>),
    Finished,
}

/// The building of the images of all languages under one configuration.
pub struct ImageBuild {
    config: Config,
    standalone: bool,
    images: StringMap<Image>,
    phase: BuildPhase,
}

impl View for ImageBuild {
    type V = BuildState;

    closed spec fn view(&self) -> BuildState {
        BuildState {
            stage: match self.phase {
                BuildPhase::Listing => BuildStage::Listing,
                BuildPhase::Walking => BuildStage::Walking,
                BuildPhase::Building(plan) => BuildStage::Building(dockerfile_views(plan@)),
                BuildPhase::Finished => BuildStage::Finished,
            },
            images: image_views(self.images@),
        }
    }
}

/// The state a building starts in: listing the existing images where the
/// service reuses them, else looking for Dockerfiles with no images known.
pub open spec fn build_start(config: Config, standalone: bool) -> (BuildState, BuildStep) {
    if config.use_created_image {
        (
            BuildState { stage: BuildStage::Listing, images: Map::empty() },
            BuildStep::List(
                list_images_command_view(
                    config.repository_name@,
                    if standalone {
                        "'{{.Tag}} {{.ID}}'"@
                    } else {
                        "{{.Tag}} {{.ID}}"@
                    },
                ),
            ),
        )
    } else {
        (
            BuildState { stage: BuildStage::Walking, images: Map::empty() },
            BuildStep::Walk(config.dockerfile_dir@),
        )
    }
}

pub(crate) fn start_build(config: Config, standalone: bool) -> (r: (ImageBuild, BuildAction))
    ensures
        (r.0@, r.1@) == build_start(config, standalone),
        r.0.settings() == config,
        r.0.is_standalone() == standalone,
{
    let images: StringMap<Image> = StringMap::new();
    assert(image_views(images@) =~= Map::<Seq<char>, ImageView>::empty());
    if config.use_created_image {
        let command = if standalone {
            list_with_format(config.repository_name.as_str(), "'{{.Tag}} {{.ID}}'")
        } else {
            list_with_format(config.repository_name.as_str(), "{{.Tag}} {{.ID}}")
        };
        (ImageBuild { config, standalone, images, phase: BuildPhase::Listing }, BuildAction::ListImages(command))
    } else {
        let dir = config.dockerfile_dir.clone();
        (ImageBuild { config, standalone, images, phase: BuildPhase::Walking }, BuildAction::FindDockerfiles(dir))
    }
}

/// Starts building the images of all languages: the building asks for the
/// existing images where the service reuses them, else for the files under
/// the Dockerfile directory.
pub fn build_images(config: Config) -> (r: (ImageBuild, BuildAction))
    ensures
        (r.0@, r.1@) == build_start(config, false),
        r.0.settings() == config,
        !r.0.is_standalone(),
{
    start_build(config, false)
}

impl ImageBuild {
    /// The configuration the building follows.
    pub closed spec fn settings(&self) -> Config {
        self.config
    }

    /// Whether the building follows the standalone modules.
    pub closed spec fn is_standalone(&self) -> bool {
        self.standalone
    }

    fn plan(&self, ds: Vec<Dockerfile>) -> (r: (Vec<Dockerfile>, Vec<DockerCommand>))
        ensures
            dockerfile_views(r.0@) == to_build(
                dockerfile_views(ds@),
                self.config.use_created_image,
                image_views(self.images@),
            ),
            command_views(r.1@) == build_commands(
                dockerfile_views(r.0@),
                self.config.repository_name@,
            ),
    {
        let ghost all = dockerfile_views(ds@);
        let mut plan: Vec<Dockerfile> = Vec::new();
        let mut commands: Vec<DockerCommand> = Vec::new();
        let mut rest = ds;
        let mut i: usize = 0;
        let n = rest.len();
        assert(dockerfile_views(plan@) =~= to_build(all.subrange(0, 0), self.config.use_created_image, image_views(self.images@)));
        while i < n
            invariant
                n == all.len(),
                i <= n,
                rest@.len() == n - i,
                dockerfile_views(rest@) == all.subrange(i as int, n as int),
                dockerfile_views(plan@) == to_build(
                    all.subrange(0, i as int),
                    self.config.use_created_image,
                    image_views(self.images@),
                ),
                command_views(commands@) == build_commands(
                    dockerfile_views(plan@),
                    self.config.repository_name@,
                ),
            decreases n - i,
        {
            let ghost before_rest = rest@;
            let d = rest.remove(0);
            assert(d@ == dockerfile_views(before_rest)[0]);
            assert(d@ == all[i as int]);
            assert(dockerfile_views(rest@) =~= all.subrange(i + 1, n as int)) by {
                assert forall|k: int| 0 <= k < rest@.len() implies dockerfile_views(rest@)[k]
                    == all.subrange(i + 1, n as int)[k] by {
                    assert(rest@[k] == before_rest[k + 1]);
                    assert(dockerfile_views(before_rest)[k + 1] == all[i + 1 + k]);
                }
            }
            let ghost seen = all.subrange(0, i + 1);
            assert(seen.drop_last() =~= all.subrange(0, i as int));
            assert(seen.last() == d@);
            let skip = self.config.use_created_image && self.images.contains_key(d.language_id.as_str());
            assert(skip == (self.config.use_created_image && image_views(self.images@).contains_key(d@.language_id)));
            if !skip {
                let command = build_image(
                    d.pwd.as_str(),
                    self.config.repository_name.as_str(),
                    d.language_id.as_str(),
                );
                let ghost prev_plan = plan@;
                let ghost prev_commands = commands@;
                plan.push(d);
                commands.push(command);
                assert(dockerfile_views(plan@) =~= dockerfile_views(prev_plan).push(d@));
                assert(command_views(commands@) =~= command_views(prev_commands).push(command@));
                assert(build_commands(dockerfile_views(plan@), self.config.repository_name@) =~= build_commands(
                    dockerfile_views(prev_plan),
                    self.config.repository_name@,
                ).push(build_image_command(d@.pwd, self.config.repository_name@, d@.language_id)));
            }
            i = i + 1;
        }
        assert(all.subrange(0, n as int) =~= all);
        (plan, commands)
    }

    /// Whether an event fits the stage of the building and can be read.
    pub fn accepts(&self, ev: &BuildEvent) -> (r: bool)
        ensures
            r == event_fits(self@, ev@, self.is_standalone()),
    {
        match (&self.phase, ev) {
            (BuildPhase::Listing, BuildEvent::Listed(o)) => match o {
                Ok(out) => listing_is_readable(out.as_str(), self.standalone),
                Err(_) => true,
            },
            (BuildPhase::Walking, BuildEvent::Walked(_, _)) => true,
            (BuildPhase::Building(plan), BuildEvent::Built(outcomes)) => outcomes.len() == plan.len(),
            _ => false,
        }
    }

    fn finish(&mut self, r: Result<StringMap<Image>, String>) -> (a: BuildAction)
        ensures
            final(self)@ == (BuildState { stage: BuildStage::Finished, images: Map::empty() }),
            a == BuildAction::Finish(r),
            final(self).config == old(self).config,
            final(self).standalone == old(self).standalone,
    {
        self.phase = BuildPhase::Finished;
        self.images = StringMap::new();
        assert(image_views(self.images@) =~= Map::<Seq<char>, ImageView>::empty());
        BuildAction::Finish(r)
    }

    /// Takes what came of what the building asked for, and gives what it
    /// asks for next.
    pub fn next(&mut self, ev: BuildEvent) -> (r: BuildAction)
        requires
            event_fits(old(self)@, ev@, old(self).is_standalone()),
        ensures
            (final(self)@, r@) == build_step(
                old(self).settings(),
                old(self).is_standalone(),
                old(self)@,
                ev@,
            ),
            final(self).settings() == old(self).settings(),
            final(self).is_standalone() == old(self).is_standalone(),
    {
        let ghost ev_view = ev@;
        let ghost before = old(self)@;
        let mut phase = BuildPhase::Finished;
        std::mem::swap(&mut phase, &mut self.phase);
        match (phase, ev) {
            (BuildPhase::Listing, BuildEvent::Listed(o)) => match o {
                Err(e) => self.finish(Err(e)),
                Ok(out) => {
                    self.images = read_listing(out.as_str(), self.standalone);
                    self.phase = BuildPhase::Walking;
                    BuildAction::FindDockerfiles(self.config.dockerfile_dir.clone())
                },
            },
            (BuildPhase::Walking, BuildEvent::Walked(files, stopped)) => {
                let found = if self.standalone {
                    find_dockerfiles(
                        &files,
                        "cannot not find parent dir",
                        "cannot get dir name",
                        "osstr cannot to str",
                        "cannot tostring parent",
                    )
                } else {
                    get_all_dockerfile(&files)
                };
                match found {
                    Err(e) => self.finish(Err(e)),
                    Ok(ds) => match stopped {
                        Some(e) => self.finish(Err(e)),
                        None => {
                            let (plan, commands) = self.plan(ds);
                            self.phase = BuildPhase::Building(plan);
                            BuildAction::BuildAll(commands)
                        },
                    },
                }
            },
            (BuildPhase::Building(plan), BuildEvent::Built(outcomes)) => {
                let ghost start = image_views(self.images@);
                let ghost outs = outcome_views(outcomes@);
                let ghost planned = dockerfile_views(plan@);
                let mut images: StringMap<Image> = StringMap::new();
                std::mem::swap(&mut images, &mut self.images);
                let mut i: usize = 0;
                assert(outs.subrange(0, 0) =~= Seq::<Result<Seq<char>, Seq<char>>>::empty());
                assert(outputs_of(outs.subrange(0, 0)).len() == 0);
                while i < outcomes.len()
                    invariant
                        i <= outcomes@.len(),
                        outcomes@.len() == plan@.len(),
                        self.config == old(self).config,
                        self.standalone == old(self).standalone,
                        before == (BuildState { stage: BuildStage::Building(planned), images: start }),
                        before == old(self)@,
                        ev_view == ev@,
                        ev_view == BuildEventView::Built(outs),
                        outs == outcome_views(outcomes@),
                        planned == dockerfile_views(plan@),
                        first_failure(build_results(outs, self.standalone).subrange(0, i as int)) is None,
                        image_views(images@) == with_built(
                            start,
                            planned.subrange(0, i as int),
                            outputs_of(outs.subrange(0, i as int)),
                        ),
                    decreases outcomes@.len() - i,
                {
                    let ghost seen = outs.subrange(0, i + 1);
                    assert(seen.drop_last() =~= outs.subrange(0, i as int));
                    assert(seen.last() == outs[i as int]);
                    assert(planned.subrange(0, i + 1).drop_last() =~= planned.subrange(0, i as int));
                    assert(outputs_of(seen).drop_last() =~= outputs_of(outs.subrange(0, i as int)));
                    let ghost results = build_results(outs, self.standalone);
                    assert(results.subrange(0, i + 1).drop_last() =~= results.subrange(0, i as int));
                    assert(results.subrange(0, i + 1).last() == results[i as int]);
                    match &outcomes[i] {
                        Err(e) => {
                            let text = if self.standalone {
                                concat("构建镜像失败：", e.as_str())
                            } else {
                                e.clone()
                            };
                            proof {
                                assert(outs[i as int] == Err::<Seq<char>, Seq<char>>(e@));
                                assert(first_failure(results.subrange(0, i + 1)) == Some(text@));
                                lemma_first_failure_persists(results, i + 1);
                            }
                            return self.finish(Err(text));
                        },
                        Ok(out) => {
                            let o = out.as_str();
                            let n = byte_len(o);
                            if n < 7 || !is_boundary(o, 7) || !is_boundary(o, n) {
                                let text = "receiving on a closed channel".to_owned();
                                proof {
                                    assert(outs[i as int] == Ok::<Seq<char>, Seq<char>>(out@));
                                    assert(!build_outcome_ok(outs[i as int]));
                                    assert(first_failure(results.subrange(0, i + 1)) == Some(text@));
                                    lemma_first_failure_persists(results, i + 1);
                                }
                                return self.finish(Err(text));
                            }
                            assert(build_outcome_ok(outs[i as int]));
                            let image_id = image_id_from_build_output(out.as_str());
                            let language_id = plan[i].language_id.clone();
                            let ghost before = images@;
                            images.insert(
                                language_id.clone(),
                                Image { _image_id: image_id, _language_id: language_id },
                            );
                            assert(image_views(images@) =~= image_views(before).insert(
                                planned[i as int].language_id,
                                built_image(planned[i as int], outputs_of(seen).last()),
                            ));
                        },
                    }
                    i = i + 1;
                }
                assert(outs.subrange(0, outs.len() as int) =~= outs);
                assert(planned.subrange(0, planned.len() as int) =~= planned);
                assert(build_results(outs, self.standalone).subrange(0, outs.len() as int)
                    =~= build_results(outs, self.standalone));
                self.finish(Ok(images))
            },
            (p, _) => {
                self.phase = p;
                BuildAction::Finish(Err(String::new()))
            },
        }
    }
}

} // verus!

verus! {

proof fn lemma_with_built_keeps(
    images: Map<Seq<char>, ImageView>,
    plan: Seq<DockerfileView>,
    outputs: Seq<Seq<char>>,
    k: Seq<char>,
)
    requires
        images.contains_key(k),
    ensures
        with_built(images, plan, outputs).contains_key(k),
    decreases plan.len(),
{
    if plan.len() > 0 && outputs.len() > 0 {
        lemma_with_built_keeps(images, plan.drop_last(), outputs.drop_last(), k);
    }
}

proof fn lemma_with_built_adds(
    images: Map<Seq<char>, ImageView>,
    plan: Seq<DockerfileView>,
    outputs: Seq<Seq<char>>,
    j: int,
)
    requires
        outputs.len() == plan.len(),
        0 <= j < plan.len(),
    ensures
        with_built(images, plan, outputs).contains_key(plan[j].language_id),
    decreases plan.len(),
{
    if j < plan.len() - 1 {
        lemma_with_built_adds(images, plan.drop_last(), outputs.drop_last(), j);
    }
}

proof fn lemma_to_build_covers(
    ds: Seq<DockerfileView>,
    use_created_image: bool,
    existing: Map<Seq<char>, ImageView>,
    i: int,
)
    requires
        0 <= i < ds.len(),
        !(use_created_image && existing.contains_key(ds[i].language_id)),
    ensures
        exists|j: int|
            0 <= j < to_build(ds, use_created_image, existing).len() && to_build(
                ds,
                use_created_image,
                existing,
            )[j] == ds[i],
    decreases ds.len(),
{
    let plan = to_build(ds, use_created_image, existing);
    if i == ds.len() - 1 {
        assert(plan[plan.len() - 1] == ds[i]);
    } else {
        lemma_to_build_covers(ds.drop_last(), use_created_image, existing, i);
        let before = to_build(ds.drop_last(), use_created_image, existing);
        let j = choose|j: int| 0 <= j < before.len() && before[j] == ds.drop_last()[i];
        assert(plan[j] == ds[i]);
    }
}

/// Whatever the reused images and the Dockerfiles, once all builds
/// succeeded, every Dockerfile's language has an image, and every reused
/// image's language still has one.
pub proof fn law_every_language_has_an_image(
    use_created_image: bool,
    images: Map<Seq<char>, ImageView>,
    ds: Seq<DockerfileView>,
    outputs: Seq<Seq<char>>,
)
    requires
        outputs.len() == to_build(ds, use_created_image, images).len(),
    ensures
        forall|i: int|
            0 <= i < ds.len() ==> #[trigger] with_built(
                images,
                to_build(ds, use_created_image, images),
                outputs,
            ).contains_key(ds[i].language_id),
        forall|k: Seq<char>|
            images.contains_key(k) ==> #[trigger] with_built(
                images,
                to_build(ds, use_created_image, images),
                outputs,
            ).contains_key(k),
{
    let plan = to_build(ds, use_created_image, images);
    assert forall|i: int| 0 <= i < ds.len() implies #[trigger] with_built(
        images,
        plan,
        outputs,
    ).contains_key(ds[i].language_id) by {
        if use_created_image && images.contains_key(ds[i].language_id) {
            lemma_with_built_keeps(images, plan, outputs, ds[i].language_id);
        } else {
            lemma_to_build_covers(ds, use_created_image, images, i);
            let j = choose|j: int| 0 <= j < plan.len() && plan[j] == ds[i];
            lemma_with_built_adds(images, plan, outputs, j);
        }
    }
    assert forall|k: Seq<char>| images.contains_key(k) implies #[trigger] with_built(
        images,
        plan,
        outputs,
    ).contains_key(k) by {
        lemma_with_built_keeps(images, plan, outputs, k);
    }
}

/// Where the service reuses images, no language that has one is built again.
pub proof fn law_reused_images_not_rebuilt(
    ds: Seq<DockerfileView>,
    existing: Map<Seq<char>, ImageView>,
)
    ensures
        forall|j: int|
            0 <= j < to_build(ds, true, existing).len() ==> !existing.contains_key(
                #[trigger] to_build(ds, true, existing)[j].language_id,
            ),
    decreases ds.len(),
{
    if ds.len() > 0 {
        law_reused_images_not_rebuilt(ds.drop_last(), existing);
        let before = to_build(ds.drop_last(), true, existing);
        let plan = to_build(ds, true, existing);
        assert forall|j: int| 0 <= j < plan.len() implies !existing.contains_key(
            #[trigger] plan[j].language_id,
        ) by {
            if j < before.len() {
                assert(plan[j] == before[j]);
            }
        }
    }
}

/// Without reuse, every Dockerfile gets its image built, in their order.
pub proof fn law_without_reuse_all_are_built(
    ds: Seq<DockerfileView>,
    existing: Map<Seq<char>, ImageView>,
)
    ensures
        to_build(ds, false, existing) == ds,
    decreases ds.len(),
{
    if ds.len() > 0 {
        law_without_reuse_all_are_built(ds.drop_last(), existing);
        assert(ds.drop_last().push(ds.last()) =~= ds);
    }
}

} // verus!
