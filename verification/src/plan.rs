//! What the install intends to put on the boot filesystem.
//!
//! Building a plan never writes; carrying one out is for whoever holds the
//! filesystem. The plan only records.

use vstd::prelude::*;
use crate::error::InstallError;
use crate::path::{file_name, file_name_of, join, or_empty, parent_name, parent_name_of, path_join, same_path, same_path_of};
use crate::text::push_char;

verus! {

/// One thing the install wants done to the boot filesystem.
pub enum Action {
    /// Make the destination match the source.
    Copy { from: String, to: String },
    /// Copy only if the destination is missing. Copied files are named after
    /// the store path they came from, so one that is already there is
    /// already the right bytes, and kernels are big.
    CopyIfMissing { from: String, to: String },
    /// Write freshly generated contents.
    Write { to: String, contents: Vec<u8> },
}

pub enum ActionView {
    Copy { from: Seq<char>, to: Seq<char> },
    CopyIfMissing { from: Seq<char>, to: Seq<char> },
    Write { to: Seq<char>, contents: Seq<u8> },
}

impl View for Action {
    type V = ActionView;

    open spec fn view(&self) -> ActionView {
        match self {
            Action::Copy { from, to } => ActionView::Copy { from: from@, to: to@ },
            Action::CopyIfMissing { from, to } => ActionView::CopyIfMissing { from: from@, to: to@ },
            Action::Write { to, contents } => ActionView::Write { to: to@, contents: contents@ },
        }
    }
}

pub open spec fn destination(a: ActionView) -> Seq<char> {
    match a {
        ActionView::Copy { to, .. } => to,
        ActionView::CopyIfMissing { to, .. } => to,
        ActionView::Write { to, .. } => to,
    }
}

impl Action {
    pub fn destination(&self) -> (r: &String)
        ensures
            r@ == destination(self@),
    {
        match self {
            Action::Copy { to, .. } => to,
            Action::CopyIfMissing { to, .. } => to,
            Action::Write { to, .. } => to,
        }
    }
}

/// The actions in order, as values.
pub open spec fn action_views(s: Seq<Action>) -> Seq<ActionView> {
    s.map_values(|a: Action| a@)
}

pub struct Plan {
    install_dir: String,
    validate_checksums: bool,
    actions: Vec<Action>,
}

pub struct PlanView {
    pub install_dir: Seq<char>,
    pub validate_checksums: bool,
    pub actions: Seq<ActionView>,
}

impl View for Plan {
    type V = PlanView;

    closed spec fn view(&self) -> PlanView {
        PlanView {
            install_dir: self.install_dir@,
            validate_checksums: self.validate_checksums,
            actions: action_views(self.actions@),
        }
    }
}

/// `p` with one more action.
pub open spec fn with_action(p: PlanView, a: ActionView) -> PlanView {
    PlanView { actions: p.actions.push(a), ..p }
}

/// The name a copied file gets: the store path it came from, a dash, and
/// its own name, so that two generations never collide.
pub open spec fn dest_file(path: Seq<char>) -> Seq<char> {
    or_empty(parent_name(path)) + seq!['-'] + or_empty(file_name(path))
}

/// A copied file's name is relative: it starts with a component's first
/// character or the dash.
proof fn lemma_dest_file_relative(path: Seq<char>)
    ensures
        dest_file(path).len() > 0,
        !crate::path::is_absolute(dest_file(path)),
{
    crate::path::lemma_comps_unslashed(path);
    let c = crate::path::comps(path);
    if parent_name(path) is Some {
        let piece = c[c.len() - 2];
        assert(crate::path::is_named(piece) && !piece.contains('/'));
        assert(dest_file(path)[0] == piece[0]);
    } else {
        assert(dest_file(path)[0] == '-');
    }
}

/// Where `path` lands under `target` of the install directory.
pub open spec fn dest_path(install_dir: Seq<char>, path: Seq<char>, target: Seq<char>) -> Seq<char> {
    path_join(path_join(install_dir, target), dest_file(path))
}

/// The `boot():`-relative path of a file copied into `target`: limine
/// resolves `boot():` against the volume it was loaded from, so it is rooted
/// at `/limine` wherever the ESP is mounted.
pub open spec fn uri_path(path: Seq<char>, target: Seq<char>) -> Seq<char> {
    path_join(path_join("/limine"@, target), dest_file(path))
}

/// The URI limine.conf refers to a copied file by, with its digest after a
/// `#` when checksums are on.
pub open spec fn uri(path: Seq<char>, target: Seq<char>, checksums: bool, digest: Seq<char>) -> Seq<char> {
    "boot():"@ + uri_path(path, target) + if checksums {
        seq!['#'] + digest
    } else {
        seq![]
    }
}

/// Asking for `path` under `target`: the copy it adds, and the URI, or the
/// error when checksums are on and there is no digest to give it.
pub open spec fn copied_uri(p: PlanView, path: Seq<char>, target: Seq<char>, digest: Option<Seq<char>>) -> Rendered {
    let q = with_action(p, ActionView::CopyIfMissing { from: path, to: dest_path(p.install_dir, path, target) });
    if p.validate_checksums && digest is None {
        Err(crate::error::ErrorView::Read { path })
    } else {
        Ok((uri(path, target, p.validate_checksums, or_empty(digest)), q))
    }
}

pub fn dest_file_of(path: &str) -> (r: String)
    ensures
        r@ == dest_file(path@),
{
    let mut r = parent_name_of(path);
    push_char(&mut r, '-');
    let name = file_name_of(path);
    r.append(name.as_str());
    r
}

pub fn uri_path_of(path: &str, target: &str) -> (r: String)
    ensures
        r@ == uri_path(path@, target@),
{
    let dir = join("/limine", target);
    join(dir.as_str(), dest_file_of(path).as_str())
}

impl Plan {
    pub fn new(install_dir: &str, validate_checksums: bool) -> (p: Plan)
        ensures
            p@ == (PlanView { install_dir: install_dir@, validate_checksums, actions: seq![] }),
    {
        let p = Plan { install_dir: crate::text::owned(install_dir), validate_checksums, actions: Vec::new() };
        assert(action_views(p.actions@) =~= seq![]);
        p
    }

    pub fn install_dir(&self) -> (r: &String)
        ensures
            r@ == self@.install_dir,
    {
        &self.install_dir
    }

    pub fn validate_checksums(&self) -> (r: bool)
        ensures
            r == self@.validate_checksums,
    {
        self.validate_checksums
    }

    pub fn actions(&self) -> (r: &Vec<Action>)
        ensures
            action_views(r@) == self@.actions,
    {
        &self.actions
    }

    fn push(&mut self, a: Action)
        ensures
            final(self)@ == with_action(old(self)@, a@),
    {
        let ghost before = self.actions@;
        self.actions.push(a);
        assert(action_views(self.actions@) =~= action_views(before).push(a@));
    }

    pub fn copy(&mut self, from: &str, to: &str)
        ensures
            final(self)@ == with_action(old(self)@, ActionView::Copy { from: from@, to: to@ }),
    {
        self.push(Action::Copy { from: crate::text::owned(from), to: crate::text::owned(to) });
    }

    /// For files whose name already carries their store hash, so one that
    /// is there is the right one.
    pub fn copy_if_missing(&mut self, from: &str, to: &str)
        ensures
            final(self)@ == with_action(
                old(self)@,
                ActionView::CopyIfMissing { from: from@, to: to@ },
            ),
    {
        self.push(Action::CopyIfMissing { from: crate::text::owned(from), to: crate::text::owned(to) });
    }

    pub fn write(&mut self, to: &str, contents: Vec<u8>)
        ensures
            final(self)@ == with_action(
                old(self)@,
                ActionView::Write { to: to@, contents: contents@ },
            ),
    {
        self.push(Action::Write { to: crate::text::owned(to), contents });
    }

    /// Writing generated text, as its UTF-8 bytes.
    pub fn write_text(&mut self, to: &str, text: &str)
        ensures
            final(self)@ == with_action(
                old(self)@,
                ActionView::Write { to: to@, contents: vstd::utf8::encode_utf8(text@) },
            ),
    {
        let contents = vstd::slice::slice_to_vec(text.as_bytes());
        self.write(to, contents);
    }

    /// Where `path` lands under `target`.
    pub fn dest_path(&self, path: &str, target: &str) -> (r: String)
        ensures
            r@ == dest_path(self@.install_dir, path@, target@),
    {
        let dir = join(self.install_dir.as_str(), target);
        join(dir.as_str(), dest_file_of(path).as_str())
    }

    /// Ask for `path` under `target`, and return the URI limine.conf refers
    /// to it by. `digest` is the file's digest, which is needed only when
    /// checksums are on.
    pub fn copied_uri(&mut self, path: &str, target: &str, digest: Option<&String>) -> (r: Result<String, InstallError>)
        ensures
            agrees(r, final(self)@, copied_uri(old(self)@, path@, target@, opt_view(digest))),
    {
        let to = self.dest_path(path, target);
        self.copy_if_missing(path, to.as_str());
        let mut u = String::new();
        u.append("boot():");
        u.append(uri_path_of(path, target).as_str());
        if self.validate_checksums {
            match digest {
                Some(d) => {
                    push_char(&mut u, '#');
                    u.append(d.as_str());
                },
                None => {
                    return Err(InstallError::Read { path: crate::text::owned(path) });
                },
            }
        }
        assert(u@ =~= uri(path@, target@, self.validate_checksums, or_empty(opt_view(digest))));
        Ok(u)
    }
}

/// What rendering something yields: its text and the plan with what it
/// asked for, or why it could not be rendered.
pub type Rendered = Result<(Seq<char>, PlanView), crate::error::ErrorView>;

/// An executed rendering, `r` leaving the plan at `after`, is `spec`.
pub open spec fn agrees(r: Result<String, InstallError>, after: PlanView, spec: Rendered) -> bool {
    match (r, spec) {
        (Ok(t), Ok((u, q))) => t@ == u && after == q,
        (Err(e), Err(g)) => e@ == g,
        _ => false,
    }
}

pub open spec fn opt_view(o: Option<&String>) -> Option<Seq<char>> {
    match o {
        Some(s) => Some(s@),
        None => None,
    }
}

/// Whether some action of the plan puts something at `path`.
pub open spec fn wanted(p: PlanView, path: Seq<char>) -> bool {
    exists|i: int| 0 <= i < p.actions.len() && same_path(#[trigger] destination(p.actions[i]), path)
}

/// The files among `present` that no action puts there, in order.
pub open spec fn unwanted(p: PlanView, present: Seq<Seq<char>>) -> Seq<Seq<char>>
    decreases present.len(),
{
    if present.len() == 0 {
        seq![]
    } else {
        unwanted(p, present.drop_last()) + if wanted(p, present.last()) {
            seq![]
        } else {
            seq![present.last()]
        }
    }
}

/// Where a file is put together before it is renamed into place.
pub open spec fn tmp_path(path: Seq<char>) -> Seq<char> {
    path + ".tmp"@
}

pub fn tmp_path_of(path: &str) -> (r: String)
    ensures
        r@ == tmp_path(path@),
{
    let mut r = crate::text::owned(path);
    r.append(".tmp");
    r
}

impl Plan {
    fn wants(&self, path: &str) -> (r: bool)
        ensures
            r == wanted(self@, path@),
    {
        let mut i: usize = 0;
        while i < self.actions.len()
            invariant
                i <= self.actions@.len(),
                self@.actions == action_views(self.actions@),
                forall|k: int| 0 <= k < i ==> !same_path(destination(#[trigger] self@.actions[k]), path@),
            decreases self.actions@.len() - i,
        {
            assert(self@.actions[i as int] == self.actions@[i as int]@);
            if same_path_of(self.actions[i].destination().as_str(), path) {
                return true;
            }
            i = i + 1;
        }
        false
    }

    /// What a prune removes: of the files found under the install
    /// directory, those the plan does not put there. Nothing outside the
    /// install directory is ever surveyed, so nothing there is removed.
    pub fn stale(&self, present: &Vec<String>) -> (r: Vec<String>)
        ensures
            crate::text::strs(r@) == unwanted(self@, crate::text::strs(present@)),
    {
        let mut out: Vec<String> = Vec::new();
        let mut i: usize = 0;
        assert(crate::text::strs(out@) =~= unwanted(self@, crate::text::strs(present@.take(0))));
        while i < present.len()
            invariant
                i <= present@.len(),
                crate::text::strs(out@) == unwanted(self@, crate::text::strs(present@.take(i as int))),
            decreases present@.len() - i,
        {
            let ghost before = out@;
            let ghost seen = crate::text::strs(present@.take(i + 1));
            assert(seen.drop_last() =~= crate::text::strs(present@.take(i as int)));
            assert(seen.last() == present@[i as int]@);
            if !self.wants(present[i].as_str()) {
                out.push(present[i].clone());
                assert(crate::text::strs(out@) =~= crate::text::strs(before).push(present@[i as int]@));
            } else {
                assert(crate::text::strs(out@) =~= crate::text::strs(before) + Seq::<Seq<char>>::empty());
            }
            i = i + 1;
        }
        assert(present@.take(i as int) =~= present@);
        out
    }
}

/// A file copied for limine.conf lands where its `boot():` URI says: with
/// the install directory at `limine` on the ESP, the copy's destination is
/// the ESP's mount point followed by the URI's path.
pub proof fn lemma_copy_lands_at_its_uri(mount_point: Seq<char>, path: Seq<char>, target: Seq<char>)
    requires
        mount_point.len() > 0,
        mount_point.last() != '/',
        !crate::path::is_absolute(target),
    ensures
        dest_path(path_join(mount_point, "limine"@), path, target) == mount_point + uri_path(path, target),
{
    reveal_strlit("limine");
    reveal_strlit("/limine");
    lemma_dest_file_relative(path);
    let f = dest_file(path);
    let dir = path_join(mount_point, "limine"@);
    assert(dir == mount_point + "/limine"@);
    let x = path_join(dir, target);
    let y = path_join("/limine"@, target);
    assert(x == mount_point + y);
    assert(y.len() > 0);
    assert(x.last() == y.last());
    assert(path_join(x, f) =~= mount_point + path_join(y, f));
}

proof fn lemma_unwanted_is_present_and_unplanned(p: PlanView, present: Seq<Seq<char>>, x: Seq<char>)
    ensures
        unwanted(p, present).contains(x) <==> (present.contains(x) && !wanted(p, x)),
    decreases present.len(),
{
    if present.len() > 0 {
        let init = present.drop_last();
        lemma_unwanted_is_present_and_unplanned(p, init, x);
        let last = present.last();
        let tail: Seq<Seq<char>> = if wanted(p, last) { seq![] } else { seq![last] };
        let u = unwanted(p, init);
        assert(unwanted(p, present) == u + tail);
        assert(present == init.push(last));
        if (u + tail).contains(x) {
            let k = choose|k: int| 0 <= k < (u + tail).len() && (u + tail)[k] == x;
            if k < u.len() {
                assert(u[k] == x);
            } else {
                assert(tail[k - u.len()] == x);
                assert(present[present.len() - 1] == x);
            }
        }
        if present.contains(x) && !wanted(p, x) {
            let k = choose|k: int| 0 <= k < present.len() && present[k] == x;
            if k < init.len() {
                assert(init[k] == x);
                let m = choose|m: int| 0 <= m < u.len() && u[m] == x;
                assert((u + tail)[m] == x);
            } else {
                assert(last == x);
                assert((u + tail)[u.len() as int] == x);
            }
        }
        if init.contains(x) {
            let k = choose|k: int| 0 <= k < init.len() && init[k] == x;
            assert(present[k] == x);
        }
    }
}

/// A prune removes exactly the files found that no action of the plan puts
/// there, of whatever kind: nothing the plan copies or writes, limine.conf,
/// secrets and Xen configs included, is ever stale, and anything found that
/// the plan does not put there is.
pub proof fn lemma_stale_spares_the_plan(p: PlanView, present: Seq<Seq<char>>)
    ensures
        forall|i: int| 0 <= i < p.actions.len() ==> !unwanted(p, present).contains(#[trigger] destination(p.actions[i])),
        forall|x: Seq<char>| present.contains(x) && !(exists|i: int| 0 <= i < p.actions.len() && same_path(#[trigger] destination(p.actions[i]), x))
            ==> unwanted(p, present).contains(x),
        forall|x: Seq<char>| unwanted(p, present).contains(x) ==> present.contains(x),
{
    assert forall|i: int| 0 <= i < p.actions.len() implies !unwanted(p, present).contains(#[trigger] destination(p.actions[i])) by {
        let x = destination(p.actions[i]);
        assert(same_path(x, x));
        assert(wanted(p, x));
        lemma_unwanted_is_present_and_unplanned(p, present, x);
    }
    assert forall|x: Seq<char>| present.contains(x) && !(exists|i: int| 0 <= i < p.actions.len() && same_path(#[trigger] destination(p.actions[i]), x))
        implies unwanted(p, present).contains(x) by {
        lemma_unwanted_is_present_and_unplanned(p, present, x);
    }
    assert forall|x: Seq<char>| unwanted(p, present).contains(x) implies present.contains(x) by {
        lemma_unwanted_is_present_and_unplanned(p, present, x);
    }
}

} // verus!
