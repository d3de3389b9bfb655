//! The sandbox: which places in the file system a request may reach.
//!
//! A canonical path is the list of its components, from the root down. Whoever asks the file
//! system for canonical paths hands the answers in; the rules here decide what may be used.
use vstd::prelude::*;
use crate::db::{User, UserView};
use crate::text::{
    has_char, join, joined, law_join_split, replace_char, replaced, split, split_on, str_eq,
    strip_leading, texts, trim_start_of,
};

verus! {

/// The components of a relative path; both slashes separate.
pub open spec fn steps_of(rel: Seq<char>) -> Seq<Seq<char>> {
    split_on(replaced(rel, '\\', '/'), '/')
}

/// Does the path hold a step up, `..`?
pub open spec fn climbs(rel: Seq<char>) -> bool {
    exists|i: int| 0 <= i < steps_of(rel).len() && #[trigger] steps_of(rel)[i] == ".."@
}

/// Does the path hold a step up?
pub fn has_climb(rel: &str) -> (r: bool)
    ensures
        r == climbs(rel@),
{
    let plain = replace_char(rel, '\\', '/');
    let steps = split(plain.as_str(), '/');
    let mut i: usize = 0;
    while i < steps.len()
        invariant
            texts(steps@) == steps_of(rel@),
            i <= steps@.len(),
            forall|k: int| 0 <= k < i ==> #[trigger] steps_of(rel@)[k] != ".."@,
        decreases steps@.len() - i,
    {
        proof {
            assert(texts(steps@)[i as int] == steps@[i as int]@);
        }
        if str_eq(steps[i].as_str(), "..") {
            return true;
        }
        i = i + 1;
    }
    false
}

/// Is the path relative and free of steps up, so that below a directory it stays below it? Only the
/// slash separates steps: a backslash is a character of a name like any other.
pub open spec fn stays_inside(rel: Seq<char>) -> bool {
    !(rel.len() > 0 && rel[0] == '/') && forall|i: int|
        0 <= i < split_on(rel, '/').len() ==> #[trigger] split_on(rel, '/')[i] != ".."@
}

/// Is the path relative and free of steps up?
pub fn is_inside(rel: &str) -> (r: bool)
    ensures
        r == stays_inside(rel@),
{
    let v = crate::text::chars_of(rel);
    if v.len() > 0 && v[0] == '/' {
        return false;
    }
    let steps = split(rel, '/');
    let mut i: usize = 0;
    while i < steps.len()
        invariant
            texts(steps@) == split_on(rel@, '/'),
            i <= steps@.len(),
            forall|k: int| 0 <= k < i ==> #[trigger] split_on(rel@, '/')[k] != ".."@,
        decreases steps@.len() - i,
    {
        proof {
            assert(texts(steps@)[i as int] == steps@[i as int]@);
        }
        if str_eq(steps[i].as_str(), "..") {
            return false;
        }
        i = i + 1;
    }
    true
}

/// Does the list of components `path` begin with `base`?
pub open spec fn within(base: Seq<Seq<char>>, path: Seq<Seq<char>>) -> bool {
    base.is_prefix_of(path)
}

/// Does the list of components `path` begin with `base`?
pub fn starts_within(base: &Vec<String>, path: &Vec<String>) -> (r: bool)
    ensures
        r == within(texts(base@), texts(path@)),
{
    if base.len() > path.len() {
        return false;
    }
    let mut i: usize = 0;
    while i < base.len()
        invariant
            i <= base@.len() <= path@.len(),
            forall|k: int| 0 <= k < i ==> #[trigger] texts(base@)[k] == texts(path@)[k],
        decreases base@.len() - i,
    {
        if !str_eq(base[i].as_str(), path[i].as_str()) {
            proof {
                let cut = texts(path@).subrange(0, texts(base@).len() as int);
                assert(cut[i as int] == path@[i as int]@);
                assert(texts(base@)[i as int] == base@[i as int]@);
                assert(cut[i as int] != texts(base@)[i as int]);
            }
            return false;
        }
        proof {
            assert(texts(base@)[i as int] == base@[i as int]@);
            assert(texts(path@)[i as int] == path@[i as int]@);
        }
        i = i + 1;
    }
    proof {
        assert(texts(path@).subrange(0, texts(base@).len() as int) =~= texts(base@));
    }
    true
}

/// A copy of a list of components.
pub fn clone_path(path: &Vec<String>) -> (r: Vec<String>)
    ensures
        texts(r@) == texts(path@),
{
    let mut out: Vec<String> = Vec::new();
    let mut i: usize = 0;
    while i < path.len()
        invariant
            i <= path@.len(),
            texts(out@) == texts(path@).take(i as int),
        decreases path@.len() - i,
    {
        let ghost before = texts(out@);
        out.push(path[i].clone());
        proof {
            assert(texts(out@) =~= before.push(path@[i as int]@));
            assert(texts(path@).take(i + 1) =~= texts(path@).take(i as int).push(path@[i as int]@));
        }
        i = i + 1;
    }
    proof {
        assert(texts(path@).take(path@.len() as int) =~= texts(path@));
    }
    out
}

/// The components of a path that may be unknown.
pub open spec fn path_of(o: Option<Vec<String>>) -> Option<Seq<Seq<char>>> {
    match o {
        Some(p) => Some(texts(p@)),
        None => None,
    }
}

/// What a client's path is looked up as: no leading slashes, then no leading backslashes.
pub open spec fn cleaned(rel: Seq<char>) -> Seq<char> {
    trim_start_of(trim_start_of(rel, '/'), '\\')
}

/// What a client's path is looked up as.
pub fn clean(rel: &str) -> (r: String)
    ensures
        r@ == cleaned(rel@),
{
    let once = strip_leading(rel, '/');
    strip_leading(once.as_str(), '\\')
}

/// What the file system says of a home directory and a cleaned path below it: the canonical home,
/// the canonical path if it exists, and the canonical parent directory if that exists.
#[derive(Debug, Clone)]
pub struct JoinProbe {
    pub home: Option<Vec<String>>,
    pub target: Option<Vec<String>>,
    pub parent: Option<Vec<String>>,
}

/// A place that a request may use: an existing one by its canonical path, or a new one by its
/// cleaned path below the home directory.
#[derive(Debug, Clone)]
pub enum Place {
    Canonical(Vec<String>),
    Under(String),
}

pub enum PlaceView {
    Canonical(Seq<Seq<char>>),
    Under(Seq<char>),
}

impl View for Place {
    type V = PlaceView;

    open spec fn view(&self) -> PlaceView {
        match *self {
            Place::Canonical(p) => PlaceView::Canonical(texts(p@)),
            Place::Under(r) => PlaceView::Under(r@),
        }
    }
}

pub open spec fn place_of(o: Option<Place>) -> Option<PlaceView> {
    match o {
        Some(p) => Some(p@),
        None => None,
    }
}

/// Is the second path known and at or below the first, known one?
pub open spec fn known_within(
    home: Option<Seq<Seq<char>>>,
    path: Option<Seq<Seq<char>>>,
) -> bool {
    home is Some && path is Some && within(home->0, path->0)
}

/// The place that a client's path names. The empty path is the home directory. A path with a step
/// up is refused. What exists must lie in the home directory; what does not exist must have its
/// parent there, or be a bare name.
pub open spec fn joined_place(
    rel: Seq<char>,
    home: Option<Seq<Seq<char>>>,
    target: Option<Seq<Seq<char>>>,
    parent: Option<Seq<Seq<char>>>,
) -> Option<PlaceView> {
    let r = cleaned(rel);
    if r.len() == 0 {
        match home {
            Some(h) => Some(PlaceView::Canonical(h)),
            None => None,
        }
    } else if climbs(r) {
        None
    } else if target is Some {
        if known_within(home, target) {
            Some(PlaceView::Canonical(target->0))
        } else {
            None
        }
    } else if known_within(home, parent) || (!r.contains('/') && !r.contains('\\')) {
        Some(PlaceView::Under(r))
    } else {
        None
    }
}

/// Joins a client's path to the home directory, if that stays inside; the file system has been
/// asked about the cleaned path.
pub fn safe_join(rel: &str, probe: &JoinProbe) -> (r: Option<Place>)
    ensures
        place_of(r) == joined_place(
            rel@,
            path_of(probe.home),
            path_of(probe.target),
            path_of(probe.parent),
        ),
{
    let cleaned_rel = clean(rel);
    proof {
        reveal_strlit("");
        assert(cleaned_rel@.len() == 0 ==> cleaned_rel@ =~= ""@);
    }
    if str_eq(cleaned_rel.as_str(), "") {
        return match &probe.home {
            Some(h) => Some(Place::Canonical(clone_path(h))),
            None => None,
        };
    }
    if has_climb(cleaned_rel.as_str()) {
        return None;
    }
    if let Some(target) = &probe.target {
        if let Some(home) = &probe.home {
            if starts_within(home, target) {
                return Some(Place::Canonical(clone_path(target)));
            }
        }
        return None;
    }
    if let Some(parent) = &probe.parent {
        if let Some(home) = &probe.home {
            if starts_within(home, parent) {
                return Some(Place::Under(cleaned_rel));
            }
        }
    }
    if !has_char(cleaned_rel.as_str(), '/') && !has_char(cleaned_rel.as_str(), '\\') {
        return Some(Place::Under(cleaned_rel));
    }
    None
}

/// No request leaves the home directory: a place that exists lies in it, and a new place has its
/// parent in it or is a bare name directly below it; neither takes a step up.
pub proof fn law_joined_place_stays_home(
    rel: Seq<char>,
    home: Option<Seq<Seq<char>>>,
    target: Option<Seq<Seq<char>>>,
    parent: Option<Seq<Seq<char>>>,
)
    ensures
        match joined_place(rel, home, target, parent) {
            Some(PlaceView::Canonical(p)) => home is Some && within(home->0, p),
            Some(PlaceView::Under(r)) => r.len() > 0 && !climbs(r) && (known_within(home, parent)
                || (!r.contains('/') && !r.contains('\\'))),
            None => true,
        },
{
    if home is Some {
        assert(home->0.subrange(0, home->0.len() as int) =~= home->0);
    }
}

/// A path with a step up is refused, whatever the file system says.
pub proof fn law_climbing_is_refused(
    rel: Seq<char>,
    home: Option<Seq<Seq<char>>>,
    target: Option<Seq<Seq<char>>>,
    parent: Option<Seq<Seq<char>>>,
)
    requires
        climbs(cleaned(rel)),
    ensures
        joined_place(rel, home, target, parent) is None,
{
    let r = cleaned(rel);
    if r.len() == 0 {
        let plain = replaced(r, '\\', '/');
        assert(plain =~= Seq::<char>::empty());
        assert(steps_of(r) =~= seq![Seq::<char>::empty()]);
        reveal_strlit("..");
        assert(".."@.len() == 2);
    }
}

/// What a URL path is looked up as: no leading slashes, and slashes in place of backslashes.
pub open spec fn relative(rel: Seq<char>) -> Seq<char> {
    replaced(trim_start_of(rel, '/'), '\\', '/')
}

/// What a URL path is looked up as.
pub fn relative_of(rel: &str) -> (r: String)
    ensures
        r@ == relative(rel@),
{
    let bare = strip_leading(rel, '/');
    replace_char(bare.as_str(), '\\', '/')
}

/// What the file system says of a base directory and a relative path below it: the canonical base,
/// the canonical path if it exists, the canonical parent directory if that exists, and the name in
/// that directory, empty where there is none.
#[derive(Debug, Clone)]
pub struct PathProbe {
    pub base: Option<Vec<String>>,
    pub full: Option<Vec<String>>,
    pub parent: Option<Vec<String>>,
    pub file_name: String,
}

/// The components of the path: where it exists its own, where not its parent's and its name.
pub open spec fn located(
    full: Option<Seq<Seq<char>>>,
    parent: Option<Seq<Seq<char>>>,
    name: Seq<char>,
) -> Option<Seq<Seq<char>>> {
    if full is Some {
        full
    } else if parent is Some {
        if name.len() == 0 {
            parent
        } else {
            Some(parent->0.push(name))
        }
    } else {
        None
    }
}

/// The path, if it lies in the base directory.
pub open spec fn confined(
    base: Option<Seq<Seq<char>>>,
    full: Option<Seq<Seq<char>>>,
    parent: Option<Seq<Seq<char>>>,
    name: Seq<char>,
) -> Option<Seq<Seq<char>>> {
    if known_within(base, located(full, parent, name)) {
        located(full, parent, name)
    } else {
        None
    }
}

/// The canonical path that a request may use, if it lies in the base directory.
pub fn safe_path(probe: &PathProbe) -> (r: Option<Vec<String>>)
    ensures
        path_of(r) == confined(
            path_of(probe.base),
            path_of(probe.full),
            path_of(probe.parent),
            probe.file_name@,
        ),
{
    let found = match &probe.full {
        Some(full) => Some(clone_path(full)),
        None => match &probe.parent {
            Some(parent) => {
                let mut p = clone_path(parent);
                let ghost before = texts(p@);
                proof {
                    reveal_strlit("");
                    assert(probe.file_name@.len() == 0 ==> probe.file_name@ =~= ""@);
                }
                if !str_eq(probe.file_name.as_str(), "") {
                    p.push(probe.file_name.clone());
                    proof {
                        assert(texts(p@) =~= before.push(probe.file_name@));
                    }
                }
                Some(p)
            },
            None => None,
        },
    };
    match (&probe.base, found) {
        (Some(base), Some(path)) => {
            if starts_within(base, &path) {
                Some(path)
            } else {
                None
            }
        },
        _ => None,
    }
}

/// A path that is let through lies in the base directory.
pub proof fn law_confined(
    base: Option<Seq<Seq<char>>>,
    full: Option<Seq<Seq<char>>>,
    parent: Option<Seq<Seq<char>>>,
    name: Seq<char>,
)
    ensures
        confined(base, full, parent, name) is Some ==> base is Some && within(
            base->0,
            confined(base, full, parent, name)->0,
        ),
{
}

/// Which directory an account works in.
#[derive(Debug, Clone)]
pub enum UserDir {
    /// The shared directory of the whole server.
    Global,
    /// This directory.
    Own(String),
    /// This directory below the shared directory of the server.
    Below(String),
}

pub enum UserDirView {
    Global,
    Own(Seq<char>),
    Below(Seq<char>),
}

impl View for UserDir {
    type V = UserDirView;

    open spec fn view(&self) -> UserDirView {
        match *self {
            UserDir::Global => UserDirView::Global,
            UserDir::Own(d) => UserDirView::Own(d@),
            UserDir::Below(d) => UserDirView::Below(d@),
        }
    }
}

/// Administrators and PIN users work in the shared directory of the server, every other account in
/// its own if it has one. An absolute one is taken as it is.
pub open spec fn dir_of(u: UserView, absolute: bool) -> UserDirView {
    if u.role == "admin"@ || u.id == 0 || u.shared_dir is None {
        UserDirView::Global
    } else if absolute {
        UserDirView::Own(u.shared_dir->0)
    } else {
        UserDirView::Below(u.shared_dir->0)
    }
}

/// Which directory an account works in. `absolute` says whether the system takes the account's
/// directory for an absolute path.
pub fn resolve_user_dir(user: &User, absolute: bool) -> (r: UserDir)
    ensures
        r@ == dir_of(user@, absolute),
{
    if user.is_admin() || user.id == 0 {
        return UserDir::Global;
    }
    match &user.shared_dir {
        Some(d) => if absolute {
            UserDir::Own(d.clone())
        } else {
            UserDir::Below(d.clone())
        },
        None => UserDir::Global,
    }
}

/// The components of `path` behind those of `base`.
pub fn path_behind(base: &Vec<String>, path: &Vec<String>) -> (r: Vec<String>)
    requires
        base@.len() <= path@.len(),
    ensures
        texts(r@) == texts(path@).skip(base@.len() as int),
{
    let mut out: Vec<String> = Vec::new();
    let mut i: usize = base.len();
    while i < path.len()
        invariant
            base@.len() <= i <= path@.len(),
            texts(out@) == texts(path@).subrange(base@.len() as int, i as int),
        decreases path@.len() - i,
    {
        let ghost before = texts(out@);
        out.push(path[i].clone());
        proof {
            assert(texts(out@) =~= before.push(path@[i as int]@));
            assert(texts(path@).subrange(base@.len() as int, i + 1) =~= texts(path@).subrange(
                base@.len() as int,
                i as int,
            ).push(path@[i as int]@));
        }
        i = i + 1;
    }
    proof {
        assert(texts(path@).subrange(base@.len() as int, path@.len() as int) =~= texts(path@).skip(
            base@.len() as int,
        ));
    }
    out
}

/// The URL of a place: its components behind the shared directory, or its name alone where it lies
/// elsewhere.
pub open spec fn url_of(dir: Seq<Seq<char>>, path: Seq<Seq<char>>) -> Seq<char> {
    if within(dir, path) {
        seq!['/'] + replaced(joined(path.skip(dir.len() as int), '/'), '\\', '/')
    } else if path.len() > 0 {
        seq!['/'] + path.last()
    } else {
        seq!['/']
    }
}

/// The URL of a place in the file system, relative to the shared directory.
pub fn fs_path_to_url(dir: &Vec<String>, path: &Vec<String>) -> (r: String)
    ensures
        r@ == url_of(texts(dir@), texts(path@)),
{
    let mut out: String = String::new();
    out.push('/');
    if starts_within(dir, path) {
        let rest = path_behind(dir, path);
        let rel = join(&rest, '/');
        let plain = replace_char(rel.as_str(), '\\', '/');
        out.append(plain.as_str());
    } else if path.len() > 0 {
        out.append(path[path.len() - 1].as_str());
    }
    proof {
        assert(out@ =~= url_of(texts(dir@), texts(path@)));
    }
    out
}

/// What the trash keeps of where an entry came from: its path below the home directory, or its
/// whole path where it lies elsewhere.
pub open spec fn trash_note(home: Seq<Seq<char>>, target: Seq<Seq<char>>) -> Seq<char> {
    if within(home, target) {
        joined(target.skip(home.len() as int), '/')
    } else {
        seq!['/'] + joined(target, '/')
    }
}

/// What the trash keeps of where an entry came from.
pub fn trash_record(home: &Vec<String>, target: &Vec<String>) -> (r: String)
    ensures
        r@ == trash_note(texts(home@), texts(target@)),
{
    if starts_within(home, target) {
        let rest = path_behind(home, target);
        join(&rest, '/')
    } else {
        let mut out: String = String::new();
        out.push('/');
        out.append(join(target, '/').as_str());
        proof {
            assert(out@ =~= seq!['/'] + joined(texts(target@), '/'));
        }
        out
    }
}

/// Where an entry of the trash goes back to: its recorded path below the home directory, if it
/// stays inside.
pub open spec fn restored(note: Seq<char>) -> Option<Seq<Seq<char>>> {
    if stays_inside(note) {
        Some(split_on(note, '/'))
    } else {
        None
    }
}

/// Where an entry of the trash goes back to, as components below the home directory.
pub fn restore_path(note: &str) -> (r: Option<Vec<String>>)
    ensures
        path_of(r) == restored(note@),
{
    if is_inside(note) {
        Some(split(note, '/'))
    } else {
        None
    }
}

/// The name of an entry: not empty, no step up, no slash in it. It may hold backslashes.
pub open spec fn is_name(step: Seq<char>) -> bool {
    step.len() > 0 && step != ".."@ && !step.contains('/')
}

/// A joined path begins as its first component does.
proof fn lemma_joined_first(parts: Seq<Seq<char>>, c: char)
    requires
        parts.len() > 0,
        parts[0].len() > 0,
    ensures
        joined(parts, c).len() > 0,
        joined(parts, c)[0] == parts[0][0],
    decreases parts.len(),
{
    if parts.len() > 1 {
        lemma_joined_first(parts.drop_last(), c);
    }
}

/// Moving an entry to the trash and restoring it brings it back to where it was, whatever its name
/// and the names of the directories that it lies in: the recorded path is accepted, and names the
/// same components below the home directory.
pub proof fn law_trash_round_trip(home: Seq<Seq<char>>, target: Seq<Seq<char>>)
    requires
        within(home, target),
        target.len() > home.len(),
        forall|i: int| home.len() <= i < target.len() ==> is_name(#[trigger] target[i]),
    ensures
        restored(trash_note(home, target)) == Some(target.skip(home.len() as int)),
{
    let rest = target.skip(home.len() as int);
    assert forall|i: int| 0 <= i < rest.len() implies is_name(#[trigger] rest[i]) by {
        assert(rest[i] == target[home.len() + i]);
    }
    assert forall|i: int| 0 <= i < rest.len() implies !(#[trigger] rest[i]).contains('/') by {
        assert(is_name(rest[i]));
    }
    law_join_split(rest, '/');
    assert(is_name(rest[0]));
    lemma_joined_first(rest, '/');
    assert(rest[0].contains(rest[0][0]));
    assert forall|i: int|
        0 <= i < split_on(joined(rest, '/'), '/').len() implies #[trigger] split_on(
        joined(rest, '/'),
        '/',
    )[i] != ".."@ by {
        assert(is_name(rest[i]));
    }
}

/// A restored entry never leaves the home directory, whatever its record says.
pub proof fn law_restore_stays_home(note: Seq<char>, i: int)
    requires
        restored(note) is Some,
        0 <= i < restored(note)->0.len(),
    ensures
        restored(note)->0[i] != ".."@,
        note.len() > 0 ==> note[0] != '/',
{
}

/// Whatever lies inside is reached: a path without steps up names the entry that is there, if that
/// lies in the home directory; where nothing is there yet, it names a new entry in a directory that
/// does, or directly at home; and an empty path names the home directory itself.
pub proof fn law_what_lies_inside_is_reached(
    rel: Seq<char>,
    home: Seq<Seq<char>>,
    target: Seq<Seq<char>>,
    parent: Seq<Seq<char>>,
)
    ensures
        cleaned(rel).len() == 0 ==> joined_place(rel, Some(home), None, None) == Some(
            PlaceView::Canonical(home),
        ),
        cleaned(rel).len() > 0 && !climbs(cleaned(rel)) && home.is_prefix_of(target)
            ==> joined_place(rel, Some(home), Some(target), None) == Some(
            PlaceView::Canonical(target),
        ),
        cleaned(rel).len() > 0 && !climbs(cleaned(rel)) && home.is_prefix_of(parent)
            ==> joined_place(rel, Some(home), None, Some(parent)) == Some(
            PlaceView::Under(cleaned(rel)),
        ),
        cleaned(rel).len() > 0 && !home.is_prefix_of(target) ==> joined_place(
            rel,
            Some(home),
            Some(target),
            Some(parent),
        ) is None,
        home.is_prefix_of(target) ==> confined(Some(home), Some(target), None, rel) == Some(target),
        home.is_prefix_of(parent) && rel.len() > 0 ==> confined(
            Some(home),
            None,
            Some(parent),
            rel,
        ) == Some(parent.push(rel)),
        !home.is_prefix_of(target) ==> confined(Some(home), Some(target), Some(parent), rel) is None,
{
    if home.is_prefix_of(parent) {
        let p = parent.push(rel);
        assert(p.subrange(0, home.len() as int) =~= parent.subrange(0, home.len() as int));
    }
}

/// A path is relative after its leading slashes are taken away; a path that has none is not
/// changed.
pub proof fn law_leading_slashes_do_not_matter(rel: Seq<char>)
    ensures
        cleaned(seq!['/'] + rel) == cleaned(rel),
        rel.len() > 0 && rel[0] != '/' && rel[0] != '\\' ==> cleaned(rel) == rel,
        relative(seq!['/'] + rel) == relative(rel),
        rel.len() > 0 && rel[0] != '/' && !rel.contains('\\') ==> relative(rel) == rel,
{
    assert((seq!['/'] + rel).skip(1) =~= rel);
    if rel.len() > 0 && rel[0] != '/' && !rel.contains('\\') {
        assert forall|i: int| 0 <= i < rel.len() implies replaced(rel, '\\', '/')[i] == rel[i] by {
            assert(rel.contains(rel[i]));
        }
        assert(replaced(rel, '\\', '/') =~= rel);
    }
}

/// Administrators and whoever knows the PIN work in the shared directory of the server; an account
/// with a directory of its own works there, and one without in the shared directory.
pub proof fn law_directories_of_accounts(u: UserView, absolute: bool)
    ensures
        u.role == "admin"@ || u.id == 0 ==> dir_of(u, absolute) == UserDirView::Global,
        u.shared_dir is None ==> dir_of(u, absolute) == UserDirView::Global,
        u.role != "admin"@ && u.id != 0 && u.shared_dir is Some ==> dir_of(u, true)
            == UserDirView::Own(u.shared_dir->0) && dir_of(u, false) == UserDirView::Below(
            u.shared_dir->0,
        ),
{
}

/// The address of an entry is its path below the shared directory, with a slash in front.
pub proof fn law_addresses_of_entries(dir: Seq<Seq<char>>, name: Seq<char>)
    requires
        !name.contains('\\'),
    ensures
        url_of(dir, dir.push(name)) == seq!['/'] + name,
        url_of(dir, dir) == seq!['/'],
{
    let p = dir.push(name);
    assert(p.subrange(0, dir.len() as int) =~= dir);
    assert(p.skip(dir.len() as int) =~= seq![name]);
    assert forall|i: int| 0 <= i < name.len() implies replaced(name, '\\', '/')[i] == name[i] by {
        assert(name.contains(name[i]));
    }
    assert(replaced(name, '\\', '/') =~= name);
    assert(dir.subrange(0, dir.len() as int) =~= dir);
    assert(dir.skip(dir.len() as int) =~= Seq::<Seq<char>>::empty());
    assert(url_of(dir, dir) =~= seq!['/']);
}

} // verus!
