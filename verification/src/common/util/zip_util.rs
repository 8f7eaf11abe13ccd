//! Unpacking an uploaded zip archive. The `zip` crate reads the archive; what
//! unpacking does with each entry (where it goes, which directories are made,
//! what is written, which mode is set, where it stops) is planned here, and
//! the caller carries out the plan on the file system.
use std::io::{Cursor, Read};
use vstd::prelude::*;
use zip::ZipArchive;

use crate::path::{join_path, join_path_text, parent, path_parent};
use crate::text::utf8_bytes;

verus! {

/// Declares `std::io::Cursor`, the in-memory reader that the archive reads
/// from; nothing inside it is visible here.
#[verifier::external_type_specification]
#[verifier::external_body]
#[verifier::reject_recursive_types(T)]
pub struct ExCursor<T>(Cursor<T>);

/// Declares `zip::ZipArchive`; what it holds is seen through `zip_entries`
/// alone.
#[verifier::external_type_specification]
#[verifier::external_body]
#[verifier::reject_recursive_types(R)]
pub struct ExZipArchive<R>(ZipArchive<R>);

/// An archive read from bytes held in memory.
pub type Archive = ZipArchive<Cursor<Vec<u8>>>;

/// One entry of an archive, as reading it gives it: its name where the name
/// is a safe relative path, whether it is a directory, its unix mode where
/// one is recorded, the bytes read from it and the error that stopped the
/// reading, if one did.
pub struct EntryView {
    pub name: Option<Seq<char>>,
    pub is_dir: bool,
    pub mode: Option<u32>,
    pub contents: Seq<u8>,
    pub read_error: Option<Seq<char>>,
}

/// An entry of an archive.
pub struct ZipEntry {
    pub name: Option<String>,
    pub is_dir: bool,
    pub mode: Option<u32>,
    pub contents: Vec<u8>,
    pub read_error: Option<String>,
}

impl View for ZipEntry {
    type V = EntryView;

    open spec fn view(&self) -> EntryView {
        EntryView {
            name: match self.name {
                Some(n) => Some(n@),
                None => None,
            },
            is_dir: self.is_dir,
            mode: self.mode,
            contents: self.contents@,
            read_error: match self.read_error {
                Some(e) => Some(e@),
                None => None,
            },
        }
    }
}

/// An entry as looking it up by its index gives it: the entry, or the
/// error's message.
pub open spec fn lookup_view(r: Result<ZipEntry, String>) -> Result<EntryView, Seq<char>> {
    match r {
        Ok(e) => Ok(e@),
        Err(m) => Err(m@),
    }
}

/// A path has a `..` part: two dots between separators or the path's ends.
pub open spec fn has_parent_part(p: Seq<char>) -> bool {
    exists|i: int|
        #![trigger p[i], p[i + 1]]
        0 <= i && i + 2 <= p.len() && p[i] == '.' && p[i + 1] == '.' && (i == 0 || p[i - 1] == '/')
            && (i + 2 == p.len() || p[i + 2] == '/')
}

/// A looked-up entry whose name, where it has one, is relative and has no
/// `..` part, so it stays below the directory it is put in.
pub open spec fn relative_name(r: Result<EntryView, Seq<char>>) -> bool {
    match r {
        Ok(e) => match e.name {
            Some(n) => (n.len() == 0 || n[0] != '/') && !has_parent_part(n),
            None => true,
        },
        Err(_) => true,
    }
}

/// What each index of the archive gives when the entry is looked up.
pub uninterp spec fn zip_entries(archive: Archive) -> Seq<Result<EntryView, Seq<char>>>;

/// What `ZipArchive::new` makes of the bytes: the lookups of its entries, or
/// the error's message.
pub uninterp spec fn archive_listing(bytes: Seq<u8>) -> Result<Seq<Result<EntryView, Seq<char>>>, Seq<char>>;

/// Calls `ZipArchive::new` on the bytes. Claimed: the result is fixed by the
/// bytes alone (the crate reads the central directory from them and keeps
/// them), and the archive's entries are those that the bytes list.
#[verifier::external_body]
fn open_archive(bytes: Vec<u8>) -> (r: Result<Archive, String>)
    ensures
        match r {
            Ok(a) => archive_listing(bytes@) == Ok::<_, Seq<char>>(zip_entries(a)),
            Err(m) => archive_listing(bytes@) == Err::<Seq<Result<EntryView, Seq<char>>>, _>(m@),
        },
{
    match ZipArchive::new(Cursor::new(bytes)) {
        Ok(a) => Ok(a),
        Err(e) => Err(e.to_string()),
    }
}

/// Calls `ZipArchive::len`: the number of entries.
#[verifier::external_body]
fn archive_len(archive: &Archive) -> (n: usize)
    ensures
        n == zip_entries(*archive).len(),
{
    archive.len()
}

/// Calls `ZipArchive::by_index` and turns the `ZipFile` that it gives into
/// plain values: what `read_to_end` reads of it (with the error that stops
/// the reading, whose bytes read before it are kept, as `Read::read_to_end`
/// documents), its `enclosed_name` (built from the entry's UTF-8 name, so
/// the text is exact), `is_dir` and `unix_mode`. Claimed: the result is what
/// the archive holds at that index, that an entry's name is never absolute
/// and has no `..` part (the crate documents that `enclosed_name` refuses
/// absolute paths and paths that leave the directory, and builds the name
/// by pushing normal components, which hold no separator, onto an empty
/// path, dropping `.` and popping for `..`), and looking it up
/// leaves the entries as they were (the crate seeks to the entry before
/// reading it).
#[verifier::external_body]
fn entry_at(archive: &mut Archive, index: usize) -> (r: Result<ZipEntry, String>)
    requires
        index < zip_entries(*old(archive)).len(),
    ensures
        zip_entries(*final(archive)) == zip_entries(*old(archive)),
        lookup_view(r) == zip_entries(*old(archive))[index as int],
        relative_name(lookup_view(r)),
{
    let mut file = match archive.by_index(index) {
        Ok(f) => f,
        Err(e) => return Err(e.to_string()),
    };
    let mut contents = Vec::new();
    let read_error = match file.read_to_end(&mut contents) {
        Ok(_) => None,
        Err(e) => Some(e.to_string()),
    };
    let name = match file.enclosed_name() {
        Some(p) => Some(p.to_string_lossy().into_owned()),
        None => None,
    };
    Ok(ZipEntry { name, is_dir: file.is_dir(), mode: file.unix_mode(), contents, read_error })
}

/// A step of unpacking, on paths given as bytes.
pub enum StepView {
    /// Create the directory and its missing parents.
    MakeDir(Seq<u8>),
    /// Create the directory and its parents unless it exists.
    MakeParent(Seq<u8>),
    /// Create the file, or empty it, and write the bytes into it.
    Write(Seq<u8>, Seq<u8>),
    /// Set the unix mode of the path.
    SetMode(Seq<u8>, u32),
}

/// A step of unpacking.
pub enum ExtractStep {
    MakeDir(Vec<u8>),
    MakeParent(Vec<u8>),
    Write(Vec<u8>, Vec<u8>),
    SetMode(Vec<u8>, u32),
}

impl View for ExtractStep {
    type V = StepView;

    open spec fn view(&self) -> StepView {
        match self {
            ExtractStep::MakeDir(p) => StepView::MakeDir(p@),
            ExtractStep::MakeParent(p) => StepView::MakeParent(p@),
            ExtractStep::Write(p, c) => StepView::Write(p@, c@),
            ExtractStep::SetMode(p, m) => StepView::SetMode(p@, *m),
        }
    }
}

/// The views of a list of steps.
pub open spec fn step_views(steps: Seq<ExtractStep>) -> Seq<StepView> {
    steps.map_values(|s: ExtractStep| s@)
}

/// What unpacking one entry into `to` does: an entry without a safe name is
/// passed over; a directory is made; for a file its parent is made where it
/// has one and the file is written with what was read of it; the recorded
/// mode is set last. The second part is the read error that ends unpacking.
pub open spec fn entry_plan(e: EntryView, to: Seq<char>) -> (Seq<StepView>, Option<Seq<char>>) {
    match e.name {
        None => (Seq::empty(), None),
        Some(n) => {
            let out = utf8_bytes(join_path(to, n));
            let mode_steps = match e.mode {
                Some(m) => seq![StepView::SetMode(out, m)],
                None => Seq::empty(),
            };
            if e.is_dir {
                (seq![StepView::MakeDir(out)] + mode_steps, None)
            } else {
                let parent_steps = match parent(out) {
                    Some(p) => seq![StepView::MakeParent(p)],
                    None => Seq::empty(),
                };
                let written = parent_steps + seq![StepView::Write(out, e.contents)];
                match e.read_error {
                    Some(m) => (written, Some(m)),
                    None => (written + mode_steps, None),
                }
            }
        },
    }
}

/// Whether unpacking ends at this lookup: it failed, or the entry could not
/// be read to its end.
pub open spec fn stops_at(r: Result<EntryView, Seq<char>>, to: Seq<char>) -> bool {
    match r {
        Err(_) => true,
        Ok(e) => entry_plan(e, to).1 is Some,
    }
}

/// What unpacking the looked-up entries into `to` does, in order, and how it
/// ends: at the first failed lookup or read, with its message.
pub open spec fn plan(entries: Seq<Result<EntryView, Seq<char>>>, to: Seq<char>) -> (Seq<StepView>, Result<(), Seq<char>>)
    decreases entries.len(),
{
    if entries.len() == 0 {
        (Seq::empty(), Ok(()))
    } else {
        match entries[0] {
            Err(m) => (Seq::empty(), Err(m)),
            Ok(e) => {
                let (steps, stop) = entry_plan(e, to);
                match stop {
                    Some(m) => (steps, Err(m)),
                    None => {
                        let (rest, end) = plan(entries.drop_first(), to);
                        (steps + rest, end)
                    },
                }
            },
        }
    }
}

/// What unpacking the archive given as bytes into `to` does: nothing, with
/// the error, where the bytes are no archive; else the plan of its entries.
pub open spec fn extraction(bytes: Seq<u8>, to: Seq<char>) -> (Seq<StepView>, Result<(), Seq<char>>) {
    match archive_listing(bytes) {
        Err(m) => (Seq::empty(), Err(m)),
        Ok(entries) => plan(entries, to),
    }
}

/// The steps of unpacking and how it ends.
pub struct ExtractPlan {
    pub steps: Vec<ExtractStep>,
    pub outcome: Result<(), String>,
}

impl View for ExtractPlan {
    type V = (Seq<StepView>, Result<(), Seq<char>>);

    open spec fn view(&self) -> (Seq<StepView>, Result<(), Seq<char>>) {
        (
            step_views(self.steps@),
            match self.outcome {
                Ok(()) => Ok(()),
                Err(m) => Err(m@),
            },
        )
    }
}


/// Unpacking one entry into `to`: its steps are added to `steps`, and the
/// read error that ends unpacking, if any, is returned.
fn plan_entry(e: &ZipEntry, to: &str, steps: &mut Vec<ExtractStep>) -> (r: Option<String>)
    ensures
        step_views(final(steps)@) == step_views(old(steps)@) + entry_plan(e@, to@).0,
        match (r, entry_plan(e@, to@).1) {
            (Some(a), Some(b)) => a@ == b,
            (None, None) => true,
            _ => false,
        },
{
    let ghost before = step_views(steps@);
    let name = match &e.name {
        None => return None,
        Some(n) => n,
    };
    let out = join_path_text(to, name.as_str()).as_str().as_bytes_vec();
    let ghost out_view = utf8_bytes(join_path(to@, name@));
    assert(out@ == out_view);
    if e.is_dir {
        steps.push(ExtractStep::MakeDir(out.clone()));
    } else {
        match path_parent(&out) {
            Some(p) => steps.push(ExtractStep::MakeParent(p)),
            None => {},
        }
        steps.push(ExtractStep::Write(out.clone(), e.contents.clone()));
        match &e.read_error {
            Some(m) => {
                assert(step_views(steps@) =~= before + entry_plan(e@, to@).0);
                return Some(m.clone());
            },
            None => {},
        }
    }
    match e.mode {
        Some(m) => steps.push(ExtractStep::SetMode(out, m)),
        None => {},
    }
    assert(step_views(steps@) =~= before + entry_plan(e@, to@).0);
    None
}

/// The views of the lookups in a list.
pub open spec fn lookup_views(entries: Seq<Result<ZipEntry, String>>) -> Seq<Result<EntryView, Seq<char>>> {
    entries.map_values(|r: Result<ZipEntry, String>| lookup_view(r))
}

/// Unpacking the looked-up entries into `to`, in order, up to the first
/// failed lookup or read.
pub fn plan_entries(entries: &Vec<Result<ZipEntry, String>>, to: &str) -> (r: ExtractPlan)
    ensures
        r@ == plan(lookup_views(entries@), to@),
{
    let mut steps: Vec<ExtractStep> = Vec::new();
    let mut i: usize = 0;
    proof {
        let all = lookup_views(entries@);
        assert(all.skip(0) =~= all);
        let rest = plan(all, to@).0;
        assert(step_views(steps@) + rest =~= rest);
    }
    while i < entries.len()
        invariant
            0 <= i <= entries.len(),
            ({
                let all = lookup_views(entries@);
                let (rest, end) = plan(all.skip(i as int), to@);
                plan(all, to@) == (step_views(steps@) + rest, end)
            }),
        decreases entries.len() - i,
    {
        let ghost all = lookup_views(entries@);
        let ghost tail = all.skip(i as int);
        assert(tail.drop_first() =~= all.skip(i + 1));
        assert(tail[0] == lookup_view(entries@[i as int]));
        match &entries[i] {
            Err(m) => {
                let r = ExtractPlan { steps, outcome: Err(m.clone()) };
                assert(r@.0 =~= r@.0 + Seq::<StepView>::empty());
                return r;
            },
            Ok(e) => {
                let stop = plan_entry(e, to, &mut steps);
                match stop {
                    Some(m) => {
                        return ExtractPlan { steps, outcome: Err(m) };
                    },
                    None => {},
                }
            },
        }
        i = i + 1;
    }
    proof {
        let all = lookup_views(entries@);
        assert(all.skip(i as int).len() == 0);
    }
    let r = ExtractPlan { steps, outcome: Ok(()) };
    assert(r@.0 =~= r@.0 + Seq::<StepView>::empty());
    r
}

/// A path, as bytes, that lies inside the directory `dir`: the encoding of
/// `dir` followed by the rest of the path, a separator between them unless
/// `dir` is empty or ends in one, and no `..` part in the rest.
pub open spec fn inside(dir: Seq<char>, p: Seq<u8>) -> bool {
    exists|rest: Seq<char>|
        #![trigger utf8_bytes(dir + rest)]
        p == utf8_bytes(dir + rest) && !has_parent_part(rest) && (dir.len() == 0 || dir.last()
            == '/' || (rest.len() > 0 && rest[0] == '/'))
}

/// The path that a step creates, writes or changes the mode of; making a
/// file's parent directory only makes what is missing above it.
pub open spec fn step_target(s: StepView) -> Option<Seq<u8>> {
    match s {
        StepView::MakeDir(p) => Some(p),
        StepView::Write(p, _) => Some(p),
        StepView::SetMode(p, _) => Some(p),
        StepView::MakeParent(_) => None,
    }
}

/// Every path that the steps create, write or change the mode of lies
/// inside `dir`.
pub open spec fn targets_inside(steps: Seq<StepView>, dir: Seq<char>) -> bool {
    forall|i: int|
        0 <= i < steps.len() ==> match step_target(#[trigger] steps[i]) {
            Some(p) => inside(dir, p),
            None => true,
        }
}

proof fn lemma_joined_inside(to: Seq<char>, n: Seq<char>)
    requires
        n.len() == 0 || n[0] != '/',
        !has_parent_part(n),
    ensures
        inside(to, utf8_bytes(join_path(to, n))),
{
    reveal_strlit("/");
    if to.len() == 0 || to.last() == '/' {
        assert(join_path(to, n) == to + n);
        assert(utf8_bytes(join_path(to, n)) == utf8_bytes(to + n));
    } else {
        let rest = "/"@ + n;
        assert(join_path(to, n) =~= to + rest);
        assert(rest[0] == '/');
        assert(!has_parent_part(rest)) by {
            if has_parent_part(rest) {
                let i = choose|i: int|
                    #![trigger rest[i], rest[i + 1]]
                    0 <= i && i + 2 <= rest.len() && rest[i] == '.' && rest[i + 1] == '.' && (i
                        == 0 || rest[i - 1] == '/') && (i + 2 == rest.len() || rest[i + 2] == '/');
                assert(i >= 1);
                let j = i - 1;
                assert(rest[i] == n[j] && rest[i + 1] == n[j + 1]);
                assert(j == 0 || n[j - 1] == rest[i - 1]);
                assert(j + 2 == n.len() || n[j + 2] == rest[i + 2]);
                assert(has_parent_part(n));
            }
        }
        assert(utf8_bytes(join_path(to, n)) == utf8_bytes(to + rest));
    }
}

proof fn lemma_entry_inside(e: EntryView, to: Seq<char>)
    requires
        relative_name(Ok(e)),
    ensures
        targets_inside(entry_plan(e, to).0, to),
{
    match e.name {
        None => {},
        Some(n) => {
            lemma_joined_inside(to, n);
        },
    }
}

/// Unpacking creates, writes and sets the mode of paths inside the target
/// directory alone, whatever the archive holds, where no entry's name is
/// absolute or has a `..` part (which the `zip` crate's `enclosed_name`
/// ensures).
pub proof fn law_extract_stays_inside(entries: Seq<Result<EntryView, Seq<char>>>, to: Seq<char>)
    requires
        forall|i: int| 0 <= i < entries.len() ==> relative_name(#[trigger] entries[i]),
    ensures
        targets_inside(plan(entries, to).0, to),
    decreases entries.len(),
{
    if entries.len() > 0 {
        match entries[0] {
            Err(_) => {},
            Ok(e) => {
                assert(relative_name(entries[0]));
                lemma_entry_inside(e, to);
                let (steps, stop) = entry_plan(e, to);
                if stop is None {
                    let rest = entries.drop_first();
                    assert forall|i: int| 0 <= i < rest.len() implies relative_name(
                        #[trigger] rest[i],
                    ) by {
                        assert(rest[i] == entries[i + 1]);
                    }
                    law_extract_stays_inside(rest, to);
                    let all = steps + plan(rest, to).0;
                    assert forall|i: int| 0 <= i < all.len() implies match step_target(
                        #[trigger] all[i],
                    ) {
                        Some(p) => inside(to, p),
                        None => true,
                    } by {
                        if i < steps.len() {
                            assert(all[i] == steps[i]);
                        } else {
                            assert(all[i] == plan(rest, to).0[i - steps.len()]);
                        }
                    }
                }
            },
        }
    }
}

/// Where an entry lands: the target directory joined with its name.
pub open spec fn out_path(to: Seq<char>, name: Seq<char>) -> Seq<u8> {
    utf8_bytes(join_path(to, name))
}

/// Unpacking one entry: an entry without a safe name gives no step; a
/// directory is made where it lands; a file is written where it lands with
/// the bytes read from it; a read error ends unpacking with its message;
/// and the recorded mode is set where it lands.
pub proof fn law_entry_lands_where_named(e: EntryView, to: Seq<char>)
    ensures
        e.name is None ==> entry_plan(e, to).0.len() == 0 && entry_plan(e, to).1 is None,
        e.name matches Some(n) ==> {
            &&& e.is_dir ==> entry_plan(e, to).0.contains(StepView::MakeDir(out_path(to, n)))
            &&& !e.is_dir ==> entry_plan(e, to).0.contains(
                StepView::Write(out_path(to, n), e.contents),
            )
            &&& entry_plan(e, to).1 == (if e.is_dir {
                None
            } else {
                e.read_error
            })
            &&& e.mode matches Some(m) ==> (entry_plan(e, to).1 is None ==> entry_plan(
                e,
                to,
            ).0.contains(StepView::SetMode(out_path(to, n), m)))
        },
{
    if let Some(n) = e.name {
        let steps = entry_plan(e, to).0;
        let out = out_path(to, n);
        if e.is_dir {
            assert(steps[0] == StepView::MakeDir(out));
        } else {
            let k = if parent(out) is Some { 1int } else { 0int };
            assert(steps[k] == StepView::Write(out, e.contents));
        }
        if let Some(m) = e.mode {
            if entry_plan(e, to).1 is None {
                assert(steps[steps.len() - 1] == StepView::SetMode(out, m));
            }
        }
    }
}

/// Unpacking keeps going over entries that do not stop it: every step of
/// an entry before the first one that stops unpacking is in the plan, and
/// where nothing stops it, unpacking ends well.
pub proof fn law_plan_covers_entries(entries: Seq<Result<EntryView, Seq<char>>>, to: Seq<char>, i: int)
    requires
        0 <= i < entries.len(),
        entries[i] is Ok,
        forall|k: int| 0 <= k < i ==> !stops_at(#[trigger] entries[k], to),
    ensures
        forall|t: int|
            0 <= t < entry_plan(entries[i]->Ok_0, to).0.len() ==> plan(entries, to).0.contains(
                #[trigger] entry_plan(entries[i]->Ok_0, to).0[t],
            ),
    decreases i,
{
    let e0 = entries[0]->Ok_0;
    let (steps, stop) = entry_plan(e0, to);
    if i == 0 {
        assert forall|t: int| 0 <= t < steps.len() implies plan(entries, to).0.contains(
            #[trigger] steps[t],
        ) by {
            if stop is None {
                assert(plan(entries, to).0[t] == steps[t]);
            } else {
                assert(plan(entries, to).0[t] == steps[t]);
            }
        }
    } else {
        assert(!stops_at(entries[0], to));
        let rest = entries.drop_first();
        assert forall|k: int| 0 <= k < i - 1 implies !stops_at(#[trigger] rest[k], to) by {
            assert(rest[k] == entries[k + 1]);
        }
        assert(rest[i - 1] == entries[i]);
        law_plan_covers_entries(rest, to, i - 1);
        let all = plan(entries, to).0;
        let tail = plan(rest, to).0;
        assert(all == steps + tail);
        let mine = entry_plan(entries[i]->Ok_0, to).0;
        assert forall|t: int| 0 <= t < mine.len() implies all.contains(#[trigger] mine[t]) by {
            assert(tail.contains(mine[t]));
            let q = choose|q: int| 0 <= q < tail.len() && tail[q] == mine[t];
            assert(all[steps.len() + q] == mine[t]);
        }
    }
}

/// Where no lookup stops unpacking, it ends well.
pub proof fn law_plan_ends_well(entries: Seq<Result<EntryView, Seq<char>>>, to: Seq<char>)
    requires
        forall|k: int| 0 <= k < entries.len() ==> !stops_at(#[trigger] entries[k], to),
    ensures
        plan(entries, to).1 == Ok::<(), Seq<char>>(()),
    decreases entries.len(),
{
    if entries.len() > 0 {
        assert(!stops_at(entries[0], to));
        let rest = entries.drop_first();
        assert forall|k: int| 0 <= k < rest.len() implies !stops_at(#[trigger] rest[k], to) by {
            assert(rest[k] == entries[k + 1]);
        }
        law_plan_ends_well(rest, to);
    }
}

/// Unpacking stops at the first lookup that stops it, so the lookups after
/// that one do not change the plan.
proof fn lemma_plan_prefix(all: Seq<Result<EntryView, Seq<char>>>, k: int, to: Seq<char>)
    requires
        0 < k <= all.len(),
        stops_at(all[k - 1], to),
    ensures
        plan(all.take(k), to) == plan(all, to),
    decreases k,
{
    let pre = all.take(k);
    assert(pre[0] == all[0]);
    if !stops_at(all[0], to) {
        assert(k > 1);
        assert(pre.drop_first() =~= all.drop_first().take(k - 1));
        lemma_plan_prefix(all.drop_first(), k - 1, to);
    }
}

/// Unpacks the archive given as bytes into the directory `to`: the steps to
/// carry out in order, and how unpacking ends. The archive is read with the
/// `zip` crate; entries are looked up one by one until one fails or cannot
/// be read to its end.
pub fn extract(archive: Vec<u8>, to: &str) -> (r: ExtractPlan)
    ensures
        r@ == extraction(archive@, to@),
        targets_inside(r@.0, to@),
{
    let mut a = match open_archive(archive) {
        Ok(a) => a,
        Err(m) => {
            let r = ExtractPlan { steps: Vec::new(), outcome: Err(m) };
            assert(r@.0 =~= Seq::<StepView>::empty());
            return r;
        },
    };
    let ghost all = zip_entries(a);
    let n = archive_len(&a);
    let mut entries: Vec<Result<ZipEntry, String>> = Vec::new();
    let mut i: usize = 0;
    while i < n
        invariant
            0 <= i <= n,
            n == all.len(),
            zip_entries(a) == all,
            archive_listing(archive@) == Ok::<_, Seq<char>>(all),
            lookup_views(entries@) =~= all.take(i as int),
            forall|j: int| 0 <= j < i ==> !stops_at(#[trigger] all[j], to@),
            forall|j: int| 0 <= j < i ==> relative_name(#[trigger] all[j]),
        decreases n - i,
    {
        let found = entry_at(&mut a, i);
        let stop = match &found {
            Err(_) => true,
            Ok(e) => e.read_error.is_some() && e.name.is_some() && !e.is_dir,
        };
        let ghost seen = entries@;
        assert(lookup_view(found) == all[i as int]);
        entries.push(found);
        assert(entries@ == seen.push(found));
        assert(lookup_views(entries@) =~= lookup_views(seen).push(all[i as int]));
        assert(all.take(i + 1) =~= all.take(i as int).push(all[i as int]));
        if stop {
            proof {
                assert(stops_at(all[i as int], to@));
                lemma_plan_prefix(all, i + 1, to@);
                assert forall|j: int| 0 <= j < lookup_views(entries@).len() implies relative_name(
                    #[trigger] lookup_views(entries@)[j],
                ) by {
                    assert(lookup_views(entries@)[j] == all[j]);
                }
                law_extract_stays_inside(lookup_views(entries@), to@);
            }
            return plan_entries(&entries, to);
        }
        i = i + 1;
    }
    assert(all.take(n as int) =~= all);
    proof {
        assert forall|j: int| 0 <= j < lookup_views(entries@).len() implies relative_name(
            #[trigger] lookup_views(entries@)[j],
        ) by {
            assert(lookup_views(entries@)[j] == all[j]);
        }
        law_extract_stays_inside(lookup_views(entries@), to@);
    }
    plan_entries(&entries, to)
}

} // verus!
