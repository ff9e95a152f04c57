//! Finding newer releases of the program and of the tester.

use vstd::prelude::*;

use crate::json::{
    as_list, as_text, get_member, json_read, json_tree, member_of, read_json, text_member, Json,
};
use crate::numbers::{
    decimal, decimal_is_digits, decimal_reads_back, number_in, parse_number,
};
use crate::outside::{
    archive_content, archive_entry, archive_entry_name, archive_len, archive_name, archive_size,
    lowercase, to_lowercase,
};
use crate::scraper::{AppEvent, LogLevel};
use crate::text::{
    bare_text_stays, concat, contains, ends, ends_with, holds_text, joined, joined_parts_come_back,
    lead, opt_text, pieces, push_text, same, split, texts,
    trim, trim_start_of, trimmed, trimmed_start, WHITE,
};

verus! {

/// The event that carries a message of the updater.
pub fn log_updater(level: LogLevel, text: String) -> (r: AppEvent)
    ensures
        r == AppEvent::Log(level, text),
{
    AppEvent::Log(level, text)
}

// ---------------------------------------------------------------------------
// Versions
// ---------------------------------------------------------------------------

pub const VERSION_MARK: [char; 1] = ['v'];

/// The number that a part of a version is.
pub open spec fn part_reader() -> spec_fn(Seq<char>) -> Option<nat> {
    |p: Seq<char>| number_in(p, 10, u64::MAX as nat)
}

/// The numbers of a version: those of the parts between its points that are
/// numbers.
pub open spec fn version_numbers(version: Seq<char>) -> Seq<nat> {
    pieces(trimmed_start(trimmed(version), VERSION_MARK@), "."@, 0).filter_map(part_reader())
}

/// The number at position `i`, zero where there is none.
pub open spec fn number_at(s: Seq<nat>, i: int) -> nat {
    if 0 <= i < s.len() {
        s[i]
    } else {
        0
    }
}

/// The first three numbers of a version, zero for each that is missing.
pub fn parse_version_parts(version: &str) -> (r: (u64, u64, u64))
    ensures
        r.0 == number_at(version_numbers(version@), 0),
        r.1 == number_at(version_numbers(version@), 1),
        r.2 == number_at(version_numbers(version@), 2),
{
    proof {
        reveal_strlit(".");
    }
    let parts = split(&trim_start_of(&trim(version), &VERSION_MARK), ".");
    let ghost all = texts(parts@);
    let ghost f = part_reader();
    let mut found: Vec<u64> = Vec::new();
    assert(Seq::new(found@.len(), |i: int| found@[i] as nat) =~= all.take(0).filter_map(f));
    assert(all.len() == parts@.len());
    for i in 0..parts.len()
        invariant
            all == texts(parts@),
            f == part_reader(),
            Seq::new(found@.len(), |i: int| found@[i] as nat) == all.take(i as int).filter_map(f),
    {
        let ghost before = found@;
        proof {
            assert(all.take(i + 1).drop_last() =~= all.take(i as int));
            assert(all.take(i + 1).last() == parts@[i as int]@);
        }
        match parse_number(&parts[i], 10, u64::MAX as u128) {
            Some(n) => {
                found.push(n as u64);
                assert(Seq::new(found@.len(), |i: int| found@[i] as nat) =~= Seq::new(
                    before.len(),
                    |i: int| before[i] as nat,
                ) + seq![n as nat]);
            },
            None => {},
        }
    }
    assert(all.take(all.len() as int) =~= all);
    let ghost ns = version_numbers(version@);
    assert(ns.len() == found@.len());
    assert(forall|i: int| 0 <= i < ns.len() ==> ns[i] == found@[i] as nat);
    let a: u64 = if found.len() > 0 {
        found[0]
    } else {
        0
    };
    let b: u64 = if found.len() > 1 {
        found[1]
    } else {
        0
    };
    let c: u64 = if found.len() > 2 {
        found[2]
    } else {
        0
    };
    (a, b, c)
}

/// The version `a` is above `b`: the first numbers in which they differ decide.
pub open spec fn above(a: (nat, nat, nat), b: (nat, nat, nat)) -> bool {
    a.0 > b.0 || (a.0 == b.0 && (a.1 > b.1 || (a.1 == b.1 && a.2 > b.2)))
}

/// The first three numbers of a version.
pub open spec fn version_of(s: Seq<char>) -> (nat, nat, nat) {
    let ns = version_numbers(s);
    (number_at(ns, 0), number_at(ns, 1), number_at(ns, 2))
}

/// Whether one version is above another.
pub fn is_newer(latest: &str, current: &str) -> (r: bool)
    ensures
        r == above(version_of(latest@), version_of(current@)),
{
    let a = parse_version_parts(latest);
    let b = parse_version_parts(current);
    a.0 > b.0 || (a.0 == b.0 && (a.1 > b.1 || (a.1 == b.1 && a.2 > b.2)))
}

// ---------------------------------------------------------------------------
// Releases
// ---------------------------------------------------------------------------

/// A file of a release.
#[derive(Debug)]
pub struct Asset {
    pub name: Option<String>,
    pub url: Option<String>,
}

impl View for Asset {
    type V = (Option<Seq<char>>, Option<Seq<char>>);

    open spec fn view(&self) -> (Option<Seq<char>>, Option<Seq<char>>) {
        (opt_text(self.name), opt_text(self.url))
    }
}

/// What a list of files holds.
pub open spec fn assets(v: Seq<Asset>) -> Seq<(Option<Seq<char>>, Option<Seq<char>>)> {
    Seq::new(v.len(), |i: int| v[i]@)
}

/// A release: its version, and its files where it lists any.
#[derive(Debug)]
pub struct Release {
    pub tag: String,
    pub assets: Option<Vec<Asset>>,
}

/// A release, as plain values.
pub struct ReleaseView {
    pub tag: Seq<char>,
    pub assets: Option<Seq<(Option<Seq<char>>, Option<Seq<char>>)>>,
}

impl View for Release {
    type V = ReleaseView;

    open spec fn view(&self) -> ReleaseView {
        ReleaseView {
            tag: self.tag@,
            assets: match self.assets {
                Some(v) => Some(assets(v@)),
                None => None,
            },
        }
    }
}

/// The file that a document describes.
pub open spec fn asset_in(v: Json) -> (Option<Seq<char>>, Option<Seq<char>>) {
    (text_member(v, "name"@), text_member(v, "browser_download_url"@))
}

/// The release that a document describes.
pub open spec fn release_in(v: Json) -> ReleaseView {
    ReleaseView {
        tag: match text_member(v, "tag_name"@) {
            Some(t) => t,
            None => "Unknown"@,
        },
        assets: match member_of(v, "assets"@) {
            Some(Json::List(l)) => Some(Seq::new(l.len(), |i: int| asset_in(l[i]))),
            _ => None,
        },
    }
}

/// What an optional release holds.
pub open spec fn opt_release(r: Option<Release>) -> Option<ReleaseView> {
    match r {
        Some(v) => Some(v@),
        None => None,
    }
}

/// The release that an answer in JSON describes.
pub open spec fn release_of(answer: Seq<u8>) -> Option<ReleaseView> {
    match json_read(answer) {
        Some(v) => Some(release_in(v)),
        None => None,
    }
}

fn read_text(v: &serde_json::Value, key: &str) -> (r: Option<String>)
    ensures
        opt_text(r) == text_member(json_tree(*v), key@),
{
    match get_member(v, key) {
        Some(m) => as_text(m),
        None => None,
    }
}

fn read_assets(items: &Vec<serde_json::Value>) -> (r: Vec<Asset>)
    ensures
        assets(r@) == Seq::new(items@.len(), |i: int| asset_in(json_tree(items@[i]))),
{
    let ghost all = Seq::new(items@.len(), |i: int| asset_in(json_tree(items@[i])));
    let mut out: Vec<Asset> = Vec::new();
    for i in 0..items.len()
        invariant
            all == Seq::new(items@.len(), |i: int| asset_in(json_tree(items@[i]))),
            assets(out@) == all.take(i as int),
    {
        let ghost before = out@;
        let name = read_text(&items[i], "name");
        let url = read_text(&items[i], "browser_download_url");
        out.push(Asset { name, url });
        assert(assets(out@) =~= assets(before).push(all[i as int]));
        assert(all.take(i + 1) =~= all.take(i as int).push(all[i as int]));
    }
    assert(all.take(items@.len() as int) =~= all);
    out
}

/// The release that an answer in JSON describes; none where it is no JSON.
pub fn read_release(answer: &[u8]) -> (r: Option<Release>)
    ensures
        opt_release(r) == release_of(answer@),
{
    match read_json(answer) {
        Some(v) => {
            let tag = match read_text(&v, "tag_name") {
                Some(t) => t,
                None => "Unknown".to_string(),
            };
            let list = match get_member(&v, "assets") {
                Some(m) => match as_list(m) {
                    Some(items) => {
                        let files = read_assets(items);
                        proof {
                            let l = json_tree(*m)->List_0;
                            assert(assets(files@) =~= Seq::new(l.len(), |i: int| asset_in(l[i])));
                        }
                        Some(files)
                    },
                    None => None,
                },
                None => None,
            };
            Some(Release { tag, assets: list })
        },
        None => None,
    }
}

/// What a file is for.
#[derive(Clone, Copy, Debug, PartialEq, Eq, Structural)]
pub enum Package {
    App,
    Tester,
}

/// A file with this name is such a package.
pub open spec fn is_package(k: Package, name: Seq<char>) -> bool {
    let lower = lowercase(name);
    match k {
        Package::App => ends(lower, ".exe"@),
        Package::Tester => holds_text(lower, "windows-64"@) && ends(lower, ".zip"@),
    }
}

/// The address of the first file at or after `i` that is such a package, where
/// that file has one.
pub open spec fn package_from(
    k: Package,
    files: Seq<(Option<Seq<char>>, Option<Seq<char>>)>,
    i: int,
) -> Option<Seq<char>>
    decreases files.len() - i,
{
    if i < 0 || i >= files.len() {
        None
    } else {
        match files[i].0 {
            Some(name) => if is_package(k, name) {
                files[i].1
            } else {
                package_from(k, files, i + 1)
            },
            None => package_from(k, files, i + 1),
        }
    }
}

fn matches_package(k: Package, name: &str) -> (r: bool)
    ensures
        r == is_package(k, name@),
{
    let lower = to_lowercase(name);
    match k {
        Package::App => ends_with(&lower, ".exe"),
        Package::Tester => contains(&lower, "windows-64") && ends_with(&lower, ".zip"),
    }
}

/// The address of the first file that is such a package, where that file has
/// one.
pub fn find_package(k: Package, files: &Vec<Asset>) -> (r: Option<String>)
    ensures
        opt_text(r) == package_from(k, assets(files@), 0),
{
    let mut i: usize = 0;
    while i < files.len()
        invariant
            i <= files@.len(),
            package_from(k, assets(files@), i as int) == package_from(k, assets(files@), 0),
        decreases files@.len() - i,
    {
        assert(assets(files@)[i as int] == files@[i as int]@);
        let hit = match &files[i].name {
            Some(name) => matches_package(k, name),
            None => false,
        };
        if hit {
            return match &files[i].url {
                Some(u) => Some(u.clone()),
                None => None,
            };
        }
        i += 1;
    }
    None
}

/// What is to be done about a release.
#[derive(Debug)]
pub enum UpdatePlan {
    UpToDate,
    NoAssets,
    NoPackage,
    Download(String),
}

/// What is to be done, as plain values.
pub enum PlanView {
    UpToDate,
    NoAssets,
    NoPackage,
    Download(Seq<char>),
}

impl View for UpdatePlan {
    type V = PlanView;

    open spec fn view(&self) -> PlanView {
        match *self {
            UpdatePlan::UpToDate => PlanView::UpToDate,
            UpdatePlan::NoAssets => PlanView::NoAssets,
            UpdatePlan::NoPackage => PlanView::NoPackage,
            UpdatePlan::Download(u) => PlanView::Download(u@),
        }
    }
}

/// The download of a package, where there is one.
pub open spec fn download_of(
    k: Package,
    files: Seq<(Option<Seq<char>>, Option<Seq<char>>)>,
) -> PlanView {
    match package_from(k, files, 0) {
        Some(u) => PlanView::Download(u),
        None => PlanView::NoPackage,
    }
}

/// What is to be done about a release of the program, when it runs in the
/// version `current`: a release without files is an error, whatever its
/// version.
pub open spec fn app_plan(r: ReleaseView, current: Seq<char>) -> PlanView {
    match r.assets {
        Some(files) => if above(version_of(r.tag), version_of(current)) {
            download_of(Package::App, files)
        } else {
            PlanView::UpToDate
        },
        None => PlanView::NoAssets,
    }
}

/// What is to be done about a release of the tester, when the one on disk is
/// of the version `local`.
pub open spec fn tester_plan(r: ReleaseView, local: Option<Seq<char>>) -> PlanView {
    if local is Some && trimmed(local->0) == trimmed(r.tag) {
        PlanView::UpToDate
    } else {
        match r.assets {
            Some(files) => download_of(Package::Tester, files),
            None => PlanView::NoAssets,
        }
    }
}

fn plan_download(k: Package, files: &Vec<Asset>) -> (r: UpdatePlan)
    ensures
        r@ == download_of(k, assets(files@)),
{
    match find_package(k, files) {
        Some(u) => UpdatePlan::Download(u),
        None => UpdatePlan::NoPackage,
    }
}

/// What is to be done about a release of the program.
pub fn plan_app_update(release: &Release, current: &str) -> (r: UpdatePlan)
    ensures
        r@ == app_plan(release@, current@),
{
    match &release.assets {
        Some(files) => {
            if is_newer(&release.tag, current) {
                plan_download(Package::App, files)
            } else {
                UpdatePlan::UpToDate
            }
        },
        None => UpdatePlan::NoAssets,
    }
}

/// What is to be done about a release of the tester.
pub fn plan_tester_update(release: &Release, local: &Option<String>) -> (r: UpdatePlan)
    ensures
        r@ == tester_plan(release@, opt_text(*local)),
{
    let current = match local {
        Some(v) => same(&trim(v), &trim(&release.tag)),
        None => false,
    };
    if current {
        return UpdatePlan::UpToDate;
    }
    match &release.assets {
        Some(files) => plan_download(Package::Tester, files),
        None => UpdatePlan::NoAssets,
    }
}

/// The address that tells of the latest release of a repository.
pub fn release_address(repo: &str) -> (r: String)
    ensures
        r@ == "https://api.github.com/repos/"@ + repo@ + "/releases/latest"@,
{
    let mut out = concat("https://api.github.com/repos/", repo);
    push_text(&mut out, "/releases/latest");
    out
}

/// Where the tester is released.
pub const TESTER_REPO: &'static str = "lilendian0x00/xray-knife";

/// The file that keeps the version of the tester on disk.
pub const TESTER_VERSION_PATH: &'static str = "config/xray_knife_version.txt";

/// The name of the program in the archive of the tester.
pub const TESTER_PROGRAM: &'static str = "xray-knife.exe";

/// What came of unpacking the program.
#[derive(Debug)]
pub enum Unpacked {
    Unreadable,
    NotFound,
    Program(Vec<u8>),
}

/// What came of unpacking the program, as plain values.
pub enum UnpackedView {
    Unreadable,
    NotFound,
    Program(Seq<u8>),
}

impl View for Unpacked {
    type V = UnpackedView;

    open spec fn view(&self) -> UnpackedView {
        match *self {
            Unpacked::Unreadable => UnpackedView::Unreadable,
            Unpacked::NotFound => UnpackedView::NotFound,
            Unpacked::Program(b) => UnpackedView::Program(b@),
        }
    }
}

/// Where the program stands among the names of an archive.
pub enum Spot {
    Unreadable,
    Absent,
    At(usize),
}

/// Where the program stands from position `i` on, when `names` are the names
/// of the entries that could be opened: the first name that ends with that of
/// the program. An entry that cannot be opened before it is in the way.
pub open spec fn spot_from(names: Seq<Option<Seq<char>>>, i: int) -> Spot
    decreases names.len() - i,
{
    if i < 0 || i >= names.len() {
        Spot::Absent
    } else {
        match names[i] {
            Some(name) => if ends(name, TESTER_PROGRAM@) {
                Spot::At(i as usize)
            } else {
                spot_from(names, i + 1)
            },
            None => Spot::Unreadable,
        }
    }
}

/// What a list of optional names holds.
pub open spec fn opt_names(v: Seq<Option<String>>) -> Seq<Option<Seq<char>>> {
    Seq::new(v.len(), |i: int| opt_text(v[i]))
}

/// Where the program stands among the names of an archive.
pub fn find_entry(names: &Vec<Option<String>>) -> (r: Spot)
    ensures
        r == spot_from(opt_names(names@), 0),
{
    let mut i: usize = 0;
    while i < names.len()
        invariant
            i <= names@.len(),
            spot_from(opt_names(names@), i as int) == spot_from(opt_names(names@), 0),
        decreases names@.len() - i,
    {
        assert(opt_names(names@)[i as int] == opt_text(names@[i as int]));
        match &names[i] {
            Some(name) => {
                if ends_with(name, TESTER_PROGRAM) {
                    return Spot::At(i);
                }
            },
            None => {
                return Spot::Unreadable;
            },
        }
        i += 1;
    }
    Spot::Absent
}

/// The names of the entries of an archive, up to the first `n`.
pub open spec fn archive_names(bytes: Seq<u8>, n: int) -> Seq<Option<Seq<char>>> {
    Seq::new(n as nat, |i: int| archive_name(bytes, i as usize))
}

/// The program in an archive.
pub open spec fn program_in(bytes: Seq<u8>) -> UnpackedView {
    match archive_size(bytes) {
        Some(n) => match spot_from(archive_names(bytes, n as int), 0) {
            Spot::At(i) => match archive_content(bytes, i) {
                Some(b) => UnpackedView::Program(b),
                None => UnpackedView::Unreadable,
            },
            Spot::Absent => UnpackedView::NotFound,
            Spot::Unreadable => UnpackedView::Unreadable,
        },
        None => UnpackedView::Unreadable,
    }
}

/// Unpacks the program from an archive.
pub fn unpack_program(archive: &[u8]) -> (r: Unpacked)
    ensures
        r@ == program_in(archive@),
{
    let n: usize = match archive_len(archive) {
        Some(n) => n,
        None => {
            return Unpacked::Unreadable;
        },
    };
    let ghost all = archive_names(archive@, n as int);
    let mut names: Vec<Option<String>> = Vec::new();
    for i in 0..n
        invariant
            all == archive_names(archive@, n as int),
            opt_names(names@) == all.take(i as int),
    {
        let ghost before = names@;
        let name = archive_entry_name(archive, i);
        let ghost v = opt_text(name);
        names.push(name);
        assert(opt_names(names@) =~= opt_names(before).push(v));
        assert(all.take(i + 1) =~= all.take(i as int).push(all[i as int]));
    }
    assert(all.take(n as int) =~= all);
    match find_entry(&names) {
        Spot::At(i) => match archive_entry(archive, i) {
            Some(b) => Unpacked::Program(b),
            None => Unpacked::Unreadable,
        },
        Spot::Absent => Unpacked::NotFound,
        Spot::Unreadable => Unpacked::Unreadable,
    }
}

// ---------------------------------------------------------------------------
// Laws
// ---------------------------------------------------------------------------

/// No version is above itself, of two versions at most one is above the other,
/// and what is above a version is above all below it.
pub proof fn versions_are_ordered(a: (nat, nat, nat), b: (nat, nat, nat), c: (nat, nat, nat))
    ensures
        !above(a, a),
        above(a, b) ==> !above(b, a),
        above(a, b) && above(b, c) ==> above(a, c),
        above(a, b) || above(b, a) || a == b,
{
}

/// A version written as three numbers.
pub open spec fn written_version(a: nat, b: nat, c: nat) -> Seq<char> {
    joined(seq![decimal(a), decimal(b), decimal(c)], "."@)
}

proof fn lemma_written(a: nat, b: nat, c: nat)
    ensures
        ({
            let w = written_version(a, b, c);
            &&& w.len() > 0
            &&& '0' <= w[0] <= '9'
            &&& '0' <= w.last() <= '9'
            &&& pieces(w, "."@, 0) == seq![decimal(a), decimal(b), decimal(c)]
        }),
{
    reveal_strlit(".");
    assert("."@ =~= seq!['.']);
    decimal_is_digits(a);
    decimal_is_digits(b);
    decimal_is_digits(c);
    let parts = seq![decimal(a), decimal(b), decimal(c)];
    assert forall|i: int| 0 <= i < parts.len() implies !(#[trigger] parts[i]).contains('.') by {
        if parts[i].contains('.') {
            let k = parts[i].index_of('.');
            assert(parts[i][k] == '.');
        }
    }
    joined_parts_come_back(parts, '.');
    let two = parts.drop_last();
    assert(two =~= seq![decimal(a), decimal(b)]);
    assert(two.drop_last() =~= seq![decimal(a)]);
    assert(joined(two.drop_last(), "."@) == decimal(a));
    assert(joined(two, "."@) == decimal(a) + "."@ + decimal(b));
    assert(joined(parts, "."@) == decimal(a) + "."@ + decimal(b) + "."@ + decimal(c));
}

proof fn lemma_three_read(a: nat, b: nat, c: nat)
    requires
        a <= u64::MAX,
        b <= u64::MAX,
        c <= u64::MAX,
    ensures
        seq![decimal(a), decimal(b), decimal(c)].filter_map(part_reader()) == seq![a, b, c],
{
    let f = part_reader();
    decimal_reads_back(a, u64::MAX as nat);
    decimal_reads_back(b, u64::MAX as nat);
    decimal_reads_back(c, u64::MAX as nat);
    let three = seq![decimal(a), decimal(b), decimal(c)];
    let two = seq![decimal(a), decimal(b)];
    let one = seq![decimal(a)];
    assert(three.drop_last() =~= two);
    assert(two.drop_last() =~= one);
    assert(one.drop_last() =~= Seq::<Seq<char>>::empty());
    assert(one.drop_last().filter_map(f) =~= Seq::<nat>::empty());
    assert(one.filter_map(f) =~= seq![a]);
    assert(two.filter_map(f) =~= seq![a, b]);
    assert(three.filter_map(f) =~= seq![a, b, c]);
}

/// A version written as three numbers is read as those numbers, with the mark
/// of versions before it or without.
pub proof fn written_version_reads_back(a: nat, b: nat, c: nat)
    requires
        a <= u64::MAX,
        b <= u64::MAX,
        c <= u64::MAX,
    ensures
        version_of(written_version(a, b, c)) == (a, b, c),
        version_of(seq!['v'] + written_version(a, b, c)) == (a, b, c),
{
    let w = written_version(a, b, c);
    let marked = seq!['v'] + w;
    lemma_written(a, b, c);
    lemma_three_read(a, b, c);
    assert forall|d: char| '0' <= d <= '9' || d == 'v' implies !#[trigger] WHITE@.contains(d) by {
        if WHITE@.contains(d) {
            let k = WHITE@.index_of(d);
            assert(WHITE@[k] == d);
        }
    }
    bare_text_stays(w, WHITE@);
    assert(marked.last() == w.last());
    bare_text_stays(marked, WHITE@);
    assert(!VERSION_MARK@.contains(w[0])) by {
        if VERSION_MARK@.contains(w[0]) {
            let k = VERSION_MARK@.index_of(w[0]);
            assert(VERSION_MARK@[k] == w[0]);
        }
    }
    assert(w.skip(0) =~= w);
    assert(VERSION_MARK@[0] == 'v');
    assert(VERSION_MARK@.contains('v'));
    assert(marked[0] == 'v');
    assert(marked[1] == w[0]);
    assert(lead(marked, VERSION_MARK@, 1) == 1);
    assert(lead(marked, VERSION_MARK@, 0) == 1);
    assert(marked.skip(1) =~= w);
}

/// The program does not replace itself by the version that it already is.
pub proof fn same_release_is_up_to_date(r: ReleaseView)
    requires
        r.assets is Some,
    ensures
        app_plan(r, r.tag) == PlanView::UpToDate,
        tester_plan(r, Some(r.tag)) == PlanView::UpToDate,
{
}

proof fn lemma_first_package(
    k: Package,
    files: Seq<(Option<Seq<char>>, Option<Seq<char>>)>,
    i: int,
    j: int,
)
    requires
        0 <= j <= i < files.len(),
        files[i].0 is Some && is_package(k, files[i].0->0),
        forall|m: int|
            0 <= m < i ==> (#[trigger] files[m]).0 is None || !is_package(k, files[m].0->0),
    ensures
        package_from(k, files, j) == files[i].1,
    decreases i - j,
{
    if j < i {
        assert(files[j].0 is None || !is_package(k, files[j].0->0));
        lemma_first_package(k, files, i, j + 1);
    }
}

/// A newer release is fetched from the address of its first file that is a program;
/// a release that is no newer is not fetched.
pub proof fn newer_releases_are_fetched(r: ReleaseView, current: Seq<char>, i: int, url: Seq<char>)
    requires
        r.assets is Some,
        0 <= i < r.assets->0.len(),
        r.assets->0[i].0 is Some,
        ends(lowercase(r.assets->0[i].0->0), ".exe"@),
        r.assets->0[i].1 == Some(url),
        forall|m: int|
            0 <= m < i ==> (#[trigger] r.assets->0[m]).0 is None || !ends(
                lowercase(r.assets->0[m].0->0),
                ".exe"@,
            ),
    ensures
        above(version_of(r.tag), version_of(current)) ==> app_plan(r, current)
            == PlanView::Download(url),
        !above(version_of(r.tag), version_of(current)) ==> app_plan(r, current)
            == PlanView::UpToDate,
{
    lemma_first_package(Package::App, r.assets->0, i, 0);
}

/// The tester is fetched from the address of the first archive for Windows, unless
/// the release that is there is the same.
pub proof fn other_testers_are_fetched(
    r: ReleaseView,
    local: Option<Seq<char>>,
    i: int,
    url: Seq<char>,
)
    requires
        local is None || trimmed(local->0) != trimmed(r.tag),
        r.assets is Some,
        0 <= i < r.assets->0.len(),
        r.assets->0[i].0 is Some,
        holds_text(lowercase(r.assets->0[i].0->0), "windows-64"@),
        ends(lowercase(r.assets->0[i].0->0), ".zip"@),
        r.assets->0[i].1 == Some(url),
        forall|m: int|
            0 <= m < i ==> (#[trigger] r.assets->0[m]).0 is None || !ends(
                lowercase(r.assets->0[m].0->0),
                ".zip"@,
            ),
    ensures
        tester_plan(r, local) == PlanView::Download(url),
{
    lemma_first_package(Package::Tester, r.assets->0, i, 0);
}

/// Versions are compared number by number, the first that differs deciding.
pub proof fn first_difference_decides(a: (nat, nat, nat), b: (nat, nat, nat))
    ensures
        a.0 > b.0 ==> above(a, b),
        a.0 == b.0 && a.1 > b.1 ==> above(a, b),
        a.0 == b.0 && a.1 == b.1 && a.2 > b.2 ==> above(a, b),
        a == b ==> !above(a, b),
{
}

} // verus!
