use vstd::prelude::*;
use crate::flow::{drive, next_spec, run_actions, start_spec, Action, Effect, Phase, Step};
use crate::state::NoteDatabase;
use crate::text::{concat, drop_tail, ends_with, has_suffix};

verus! {

/// The filename suffix that marks a secured (encrypted) note.
pub open spec fn secured_suffix() -> Seq<char> {
    seq!['.', 's', 'e', 'c', 'u', 'r', 'e', 'd']
}

/// The name of a repository's registry file.
pub open spec fn registry_name() -> Seq<char> {
    seq!['n', 'o', 't', 'e', '-', 'd', 'b', '.', 'j', 's', 'o', 'n']
}

/// `name` inside the directory `dir`.
pub open spec fn join_spec(dir: Seq<char>, name: Seq<char>) -> Seq<char> {
    dir + seq!['/'] + name
}

/// `name` inside the directory `dir`.
pub fn join_path(dir: &str, name: &str) -> (r: String)
    ensures
        r@ == join_spec(dir@, name@),
{
    let d = concat(dir, "/");
    proof {
        reveal_strlit("/");
    }
    concat(d.as_str(), name)
}

/// The secured file that encrypting `path` produces.
pub fn secured_path(path: &str) -> (r: String)
    ensures
        r@ == path@ + secured_suffix(),
{
    proof {
        reveal_strlit(".secured");
        assert(".secured"@ =~= secured_suffix());
    }
    concat(path, ".secured")
}

/// The registry file of the repository at `dir`.
pub fn registry_path(dir: &str) -> (r: String)
    ensures
        r@ == join_spec(dir@, registry_name()),
{
    proof {
        reveal_strlit("note-db.json");
        assert("note-db.json"@ =~= registry_name());
    }
    join_path(dir, "note-db.json")
}

/// Whether `name` is the name of a secured note.
pub fn is_secured_name(name: &str) -> (r: bool)
    ensures
        r == has_suffix(name@, secured_suffix()),
{
    proof {
        reveal_strlit(".secured");
        assert(".secured"@ =~= secured_suffix());
    }
    ends_with(name, ".secured")
}

/// The plaintext name of a secured note: its name without the suffix.
pub open spec fn plain_name(secured: Seq<char>) -> Seq<char> {
    secured.subrange(0, secured.len() - secured_suffix().len())
}

/// The step has no cleanup.
pub open spec fn bare(st: Step) -> bool {
    st.on_failure is None
}

/// The step's cleanup removes `p`.
pub open spec fn cleans(st: Step, p: Seq<char>) -> bool {
    st.on_failure matches Some(c) && is_remove(c, p)
}

pub open spec fn is_save_registry(e: Effect, dir: Seq<char>) -> bool {
    e matches Effect::SaveRegistry { dir: d } && d@ == dir
}

pub open spec fn is_create(e: Effect, p: Seq<char>) -> bool {
    e matches Effect::CreateFile { path } && path@ == p
}

pub open spec fn is_write_title(e: Effect, p: Seq<char>, title: Seq<char>) -> bool {
    e matches Effect::WriteTitle { path, name } && path@ == p && name@ == title
}

pub open spec fn is_encrypt(e: Effect, p: Seq<char>, pw: Seq<char>) -> bool {
    e matches Effect::Encrypt { path, password } && path@ == p && password@ == pw
}

pub open spec fn is_decrypt(e: Effect, p: Seq<char>, out: Seq<char>) -> bool {
    e matches Effect::Decrypt { path, plain } && path@ == p && plain@ == out
}

pub open spec fn is_edit(e: Effect, p: Seq<char>) -> bool {
    e matches Effect::Edit { path } && path@ == p
}

pub open spec fn is_remove(e: Effect, p: Seq<char>) -> bool {
    e matches Effect::RemoveFile { path } && path@ == p
}

pub open spec fn is_stage(e: Effect, dir: Seq<char>, p: Seq<char>) -> bool {
    e matches Effect::Stage { dir: d, path } && d@ == dir && path@ == p
}

pub open spec fn is_commit(e: Effect, dir: Seq<char>) -> bool {
    e matches Effect::Commit { dir: d } && d@ == dir
}

pub open spec fn is_push(e: Effect, dir: Seq<char>) -> bool {
    e matches Effect::Push { dir: d } && d@ == dir
}

/// Whether `e` touches version control.
pub open spec fn is_sync(e: Effect) -> bool {
    e is Stage || e is Commit || e is Push
}

/// The steps that stage, commit and push, from position `at` of `s`.
pub open spec fn syncs_from(s: Seq<Step>, at: int, dir: Seq<char>, staged: Seq<Seq<char>>) -> bool {
    &&& s.len() == at + staged.len() + 2
    &&& forall|j: int|
        0 <= j < staged.len() ==> is_stage(#[trigger] s[at + j].effect, dir, staged[j]) && bare(
            s[at + j],
        )
    &&& is_commit(s[at + staged.len()].effect, dir) && bare(s[at + staged.len()])
    &&& is_push(s[at + staged.len() + 1].effect, dir) && bare(s[at + staged.len() + 1])
}

/// The create flow for note `name` in the repository at `dir`: persist the
/// registry first when a hint was recorded, create and fill the plaintext
/// file, encrypt it, then stage, commit and push. A failure to fill or to
/// encrypt the plaintext removes it.
pub open spec fn is_create_plan(
    s: Seq<Step>,
    dir: Seq<char>,
    name: Seq<char>,
    pw: Seq<char>,
    hint_recorded: bool,
) -> bool {
    let plain = join_spec(dir, name);
    let h = if hint_recorded { 1int } else { 0int };
    &&& hint_recorded ==> is_save_registry(s[0].effect, dir) && bare(s[0])
    &&& is_create(s[h].effect, plain) && bare(s[h])
    &&& is_write_title(s[h + 1].effect, plain, name) && cleans(s[h + 1], plain)
    &&& is_encrypt(s[h + 2].effect, plain, pw) && cleans(s[h + 2], plain)
    &&& syncs_from(
        s,
        h + 3,
        dir,
        if hint_recorded {
            seq![plain + secured_suffix(), join_spec(dir, registry_name())]
        } else {
            seq![plain + secured_suffix()]
        },
    )
}

/// The steps of the create flow.
pub fn create_plan(dir: &str, name: &str, password: &str, hint_recorded: bool) -> (r: Vec<Step>)
    ensures
        is_create_plan(r@, dir@, name@, password@, hint_recorded),
{
    let plain = join_path(dir, name);
    let secured = secured_path(plain.as_str());
    let mut s: Vec<Step> = Vec::new();
    if hint_recorded {
        s.push(Step { effect: Effect::SaveRegistry { dir: dir.to_owned() }, on_failure: None });
    }
    s.push(Step { effect: Effect::CreateFile { path: plain.clone() }, on_failure: None });
    s.push(
        Step {
            effect: Effect::WriteTitle { path: plain.clone(), name: name.to_owned() },
            on_failure: Some(Effect::RemoveFile { path: plain.clone() }),
        },
    );
    s.push(
        Step {
            effect: Effect::Encrypt { path: plain.clone(), password: password.to_owned() },
            on_failure: Some(Effect::RemoveFile { path: plain.clone() }),
        },
    );
    s.push(Step { effect: Effect::Stage { dir: dir.to_owned(), path: secured }, on_failure: None });
    if hint_recorded {
        s.push(
            Step {
                effect: Effect::Stage { dir: dir.to_owned(), path: registry_path(dir) },
                on_failure: None,
            },
        );
    }
    s.push(Step { effect: Effect::Commit { dir: dir.to_owned() }, on_failure: None });
    s.push(Step { effect: Effect::Push { dir: dir.to_owned() }, on_failure: None });
    s
}


/// The plaintext path of the secured note `file` in `dir`, or `None` when
/// `file` is not the name of a secured note.
pub fn plain_path(dir: &str, file: &str) -> (r: Option<String>)
    ensures
        r is Some <==> has_suffix(file@, secured_suffix()),
        r matches Some(p) ==> p@ == join_spec(dir@, plain_name(file@)),
{
    if is_secured_name(file) {
        Some(join_path(dir, drop_tail(file, 8).as_str()))
    } else {
        None
    }
}

/// The first part of the view flow for the secured note `file` in `dir`:
/// decrypt it next to itself, then open the plaintext in the editor. A failed
/// decryption halts before the editor; a failed editor session removes the
/// plaintext.
pub open spec fn is_view_plan(s: Seq<Step>, dir: Seq<char>, file: Seq<char>) -> bool {
    let plain = join_spec(dir, plain_name(file));
    &&& s.len() == 2
    &&& is_decrypt(s[0].effect, join_spec(dir, file), plain) && bare(s[0])
    &&& is_edit(s[1].effect, plain) && cleans(s[1], plain)
}

/// The steps that decrypt and edit the secured note `file` in `dir`, or `None`
/// when `file` is not the name of a secured note.
pub fn view_plan(dir: &str, file: &str) -> (r: Option<Vec<Step>>)
    ensures
        r is Some <==> has_suffix(file@, secured_suffix()),
        r matches Some(s) ==> is_view_plan(s@, dir@, file@),
{
    if !is_secured_name(file) {
        return None;
    }
    let plain = join_path(dir, drop_tail(file, 8).as_str());
    let mut s: Vec<Step> = Vec::new();
    s.push(
        Step {
            effect: Effect::Decrypt { path: join_path(dir, file), plain: plain.clone() },
            on_failure: None,
        },
    );
    s.push(
        Step {
            effect: Effect::Edit { path: plain.clone() },
            on_failure: Some(Effect::RemoveFile { path: plain }),
        },
    );
    Some(s)
}

/// What to do with an edited plaintext.
#[derive(Clone, Copy, Debug, PartialEq, Eq, Structural)]
pub enum EditChoice {
    /// Re-encrypt, remove the plaintext, then stage, commit and push.
    SaveRemote,
    /// Re-encrypt and remove the plaintext only.
    SaveLocal,
    /// Remove the plaintext without re-encrypting.
    Discard,
}

/// The steps that close an editing session on the plaintext `plain` in `dir`:
/// re-encrypt with `pw` before the plaintext is removed, never after, for
/// both saving choices; a discard only removes the plaintext.
pub open spec fn is_close_plan(
    s: Seq<Step>,
    dir: Seq<char>,
    plain: Seq<char>,
    pw: Seq<char>,
    choice: EditChoice,
) -> bool {
    match choice {
        EditChoice::Discard => s.len() == 1 && is_remove(s[0].effect, plain) && bare(s[0]),
        _ => {
            &&& is_encrypt(s[0].effect, plain, pw) && bare(s[0])
            &&& is_remove(s[1].effect, plain) && bare(s[1])
            &&& if choice == EditChoice::SaveRemote {
                syncs_from(s, 2, dir, seq![plain + secured_suffix()])
            } else {
                s.len() == 2
            }
        },
    }
}

/// The steps that close an editing session on `plain` in `dir`.
pub fn close_plan(dir: &str, plain: &str, password: &str, choice: EditChoice) -> (r: Vec<Step>)
    ensures
        is_close_plan(r@, dir@, plain@, password@, choice),
{
    let mut s: Vec<Step> = Vec::new();
    match choice {
        EditChoice::Discard => {
            s.push(Step { effect: Effect::RemoveFile { path: plain.to_owned() }, on_failure: None });
        },
        _ => {
            s.push(
                Step {
                    effect: Effect::Encrypt { path: plain.to_owned(), password: password.to_owned() },
                    on_failure: None,
                },
            );
            s.push(Step { effect: Effect::RemoveFile { path: plain.to_owned() }, on_failure: None });
            if choice == EditChoice::SaveRemote {
                s.push(
                    Step {
                        effect: Effect::Stage { dir: dir.to_owned(), path: secured_path(plain) },
                        on_failure: None,
                    },
                );
                s.push(Step { effect: Effect::Commit { dir: dir.to_owned() }, on_failure: None });
                s.push(Step { effect: Effect::Push { dir: dir.to_owned() }, on_failure: None });
            }
        },
    }
    s
}

/// The delete flow for the secured note `file` in `dir`: remove the file,
/// then persist the registry without its hint, then stage the removal and the
/// registry, commit and push.
pub open spec fn is_delete_plan(s: Seq<Step>, dir: Seq<char>, file: Seq<char>) -> bool {
    let path = join_spec(dir, file);
    &&& is_remove(s[0].effect, path) && bare(s[0])
    &&& is_save_registry(s[1].effect, dir) && bare(s[1])
    &&& syncs_from(s, 2, dir, seq![path, join_spec(dir, registry_name())])
}

/// The steps that delete the secured note `file` in `dir`; its hint leaves
/// `db`, which the registry step persists.
pub fn delete_plan(dir: &str, file: &str, db: &mut NoteDatabase) -> (r: Vec<Step>)
    ensures
        is_delete_plan(r@, dir@, file@),
        final(db)@ == old(db)@.remove(file@),
{
    db.remove_password_hint(file);
    let path = join_path(dir, file);
    let mut s: Vec<Step> = Vec::new();
    s.push(Step { effect: Effect::RemoveFile { path: path.clone() }, on_failure: None });
    s.push(Step { effect: Effect::SaveRegistry { dir: dir.to_owned() }, on_failure: None });
    s.push(Step { effect: Effect::Stage { dir: dir.to_owned(), path }, on_failure: None });
    s.push(
        Step {
            effect: Effect::Stage { dir: dir.to_owned(), path: registry_path(dir) },
            on_failure: None,
        },
    );
    s.push(Step { effect: Effect::Commit { dir: dir.to_owned() }, on_failure: None });
    s.push(Step { effect: Effect::Push { dir: dir.to_owned() }, on_failure: None });
    s
}


/// The files on disk after `e` succeeded on `files`.
pub open spec fn after_effect(files: Set<Seq<char>>, e: Effect) -> Set<Seq<char>> {
    match e {
        Effect::CreateFile { path } => files.insert(path@),
        Effect::WriteTitle { path, .. } => files.insert(path@),
        Effect::Encrypt { path, .. } => files.insert(path@ + secured_suffix()),
        Effect::Decrypt { plain, .. } => files.insert(plain@),
        Effect::RemoveFile { path } => files.remove(path@),
        _ => files,
    }
}

/// The files on disk after every effect of `s` succeeded in turn on `files`.
pub open spec fn after_all(files: Set<Seq<char>>, s: Seq<Step>) -> Set<Seq<char>>
    decreases s.len(),
{
    if s.len() == 0 {
        files
    } else {
        after_effect(after_all(files, s.drop_last()), s.last().effect)
    }
}

proof fn lemma_stopped_idle(s: Seq<Step>, p: int, outcomes: Seq<bool>)
    ensures
        forall|i: int|
            0 <= i < drive(s, p, Phase::Stopped, outcomes).len() ==> #[trigger] drive(
                s,
                p,
                Phase::Stopped,
                outcomes,
            )[i] is Idle,
        drive(s, p, Phase::Stopped, outcomes).len() == outcomes.len(),
    decreases outcomes.len(),
{
    if outcomes.len() > 0 {
        lemma_stopped_idle(s, p, outcomes.drop_first());
        let d = drive(s, p, Phase::Stopped, outcomes);
        let t = drive(s, p, Phase::Stopped, outcomes.drop_first());
        assert forall|i: int| 0 <= i < d.len() implies #[trigger] d[i] is Idle by {
            if i > 0 {
                assert(d[i] == t[i - 1]);
            }
        }
    }
}

/// A run whose first step has no cleanup and fails performs that step, reports
/// its failure, and performs nothing else.
pub proof fn law_first_failure_halts(s: Seq<Step>, outcomes: Seq<bool>)
    requires
        s.len() > 0,
        bare(s[0]),
        outcomes.len() > 0,
        !outcomes[0],
    ensures
        run_actions(s, outcomes).len() == outcomes.len() + 1,
        run_actions(s, outcomes)[0] == Action::Perform(s[0].effect),
        run_actions(s, outcomes)[1] == Action::Failed(s[0].effect),
        forall|i: int| 2 <= i < run_actions(s, outcomes).len() ==> #[trigger] run_actions(s, outcomes)[i] is Idle,
{
    let rest = outcomes.drop_first();
    lemma_stopped_idle(s, 0, rest);
    let r = run_actions(s, outcomes);
    let d = drive(s, 0, Phase::Running, outcomes);
    let t = drive(s, 0, Phase::Stopped, rest);
    assert(d == seq![Action::Failed(s[0].effect)] + t);
    assert forall|i: int| 2 <= i < r.len() implies #[trigger] r[i] is Idle by {
        assert(r[i] == t[i - 2]);
    }
}

/// When the removal of a note fails, no version-control step is performed.
pub proof fn law_failed_removal_skips_sync(
    s: Seq<Step>,
    dir: Seq<char>,
    file: Seq<char>,
    outcomes: Seq<bool>,
)
    requires
        is_delete_plan(s, dir, file),
        outcomes.len() > 0,
        !outcomes[0],
    ensures
        forall|i: int|
            0 <= i < run_actions(s, outcomes).len() ==> !(#[trigger] run_actions(s, outcomes)[i] matches Action::Perform(
                e,
            ) && is_sync(e)),
{
    law_first_failure_halts(s, outcomes);
    let r = run_actions(s, outcomes);
    assert forall|i: int| 0 <= i < r.len() implies !(#[trigger] r[i] matches Action::Perform(
        e,
    ) && is_sync(e)) by {
        if i >= 2 {
            assert(r[i] is Idle);
        }
    }
}

/// When encryption fails during create, the next effect removes the
/// plaintext, so that it is gone once that removal succeeds, and after it
/// nothing follows but the report of the failed encryption.
pub proof fn law_failed_encryption_removes_plaintext(
    s: Seq<Step>,
    dir: Seq<char>,
    name: Seq<char>,
    pw: Seq<char>,
    hint_recorded: bool,
    files: Set<Seq<char>>,
    cleanup_ok: bool,
)
    requires
        is_create_plan(s, dir, name, pw, hint_recorded),
    ensures
        ({
            let at = if hint_recorded { 3int } else { 2int };
            &&& is_encrypt(s[at].effect, join_spec(dir, name), pw)
            &&& next_spec(s, at, Phase::Running, false) matches (p, ph, Action::Perform(c)) && ph
                == Phase::CleaningUp && !after_effect(files, c).contains(join_spec(dir, name))
                && next_spec(s, p, ph, cleanup_ok) == (at, Phase::Stopped, Action::Failed(
                s[at].effect,
            ))
        }),
{
}

proof fn lemma_suffix_differs(p: Seq<char>)
    ensures
        p + secured_suffix() != p,
{
    assert((p + secured_suffix()).len() != p.len());
}

/// The plaintext of an edited note is on disk when its re-encryption is
/// attempted: once decryption and the editor succeeded, the first effect of
/// either saving choice encrypts that plaintext.
pub proof fn law_plaintext_present_at_reencryption(
    view: Seq<Step>,
    close: Seq<Step>,
    dir: Seq<char>,
    file: Seq<char>,
    pw: Seq<char>,
    choice: EditChoice,
    files: Set<Seq<char>>,
)
    requires
        is_view_plan(view, dir, file),
        is_close_plan(close, dir, join_spec(dir, plain_name(file)), pw, choice),
        choice != EditChoice::Discard,
    ensures
        after_all(files, view).contains(join_spec(dir, plain_name(file))),
        start_spec(close).2 == Action::Perform(close[0].effect),
        is_encrypt(close[0].effect, join_spec(dir, plain_name(file)), pw),
{
    reveal_with_fuel(after_all, 3);
}

/// After a successful close of an editing session, whichever the choice, the
/// plaintext is no longer on disk.
pub proof fn law_closed_session_leaves_no_plaintext(
    close: Seq<Step>,
    dir: Seq<char>,
    plain: Seq<char>,
    pw: Seq<char>,
    choice: EditChoice,
    files: Set<Seq<char>>,
)
    requires
        is_close_plan(close, dir, plain, pw, choice),
    ensures
        !after_all(files, close).contains(plain),
{
    reveal_with_fuel(after_all, 6);
    lemma_suffix_differs(plain);
    if choice != EditChoice::Discard {
        let two = close.subrange(0, 2);
        assert(two.drop_last() =~= close.subrange(0, 1));
        assert(close.subrange(0, 1).drop_last() =~= close.subrange(0, 0));
        assert(!after_all(files, two).contains(plain));
        if choice == EditChoice::SaveRemote {
            assert(close.len() == 5);
            assert(close.drop_last().drop_last().drop_last() =~= two);
        } else {
            assert(close =~= two);
        }
    } else {
        assert(close.drop_last() =~= Seq::<Step>::empty());
    }
}

/// A failed re-encryption never removes the plaintext: the edits stay on disk.
pub proof fn law_failed_reencryption_keeps_plaintext(
    close: Seq<Step>,
    dir: Seq<char>,
    plain: Seq<char>,
    pw: Seq<char>,
    choice: EditChoice,
    outcomes: Seq<bool>,
)
    requires
        is_close_plan(close, dir, plain, pw, choice),
        choice != EditChoice::Discard,
        outcomes.len() > 0,
        !outcomes[0],
    ensures
        forall|i: int|
            0 <= i < run_actions(close, outcomes).len() ==> !(#[trigger] run_actions(close, outcomes)[i] matches Action::Perform(
                e,
            ) && e is RemoveFile),
{
    law_first_failure_halts(close, outcomes);
    let r = run_actions(close, outcomes);
    assert forall|i: int| 0 <= i < r.len() implies !(#[trigger] r[i] matches Action::Perform(
        e,
    ) && e is RemoveFile) by {
        if i >= 2 {
            assert(r[i] is Idle);
        }
    }
}


/// The views of a sequence of strings.
pub open spec fn texts(s: Seq<String>) -> Seq<Seq<char>> {
    s.map_values(|x: String| x@)
}

/// The names among `names` that mark secured notes, in their order.
pub open spec fn secured_only(names: Seq<Seq<char>>) -> Seq<Seq<char>>
    decreases names.len(),
{
    if names.len() == 0 {
        Seq::empty()
    } else {
        let r = secured_only(names.drop_last());
        if has_suffix(names.last(), secured_suffix()) {
            r.push(names.last())
        } else {
            r
        }
    }
}

/// The names among `names` other than `excluded`, in their order.
pub open spec fn all_but(names: Seq<Seq<char>>, excluded: Seq<char>) -> Seq<Seq<char>>
    decreases names.len(),
{
    if names.len() == 0 {
        Seq::empty()
    } else {
        let r = all_but(names.drop_last(), excluded);
        if names.last() != excluded {
            r.push(names.last())
        } else {
            r
        }
    }
}

/// The secured notes among the entries `names` of a repository directory.
pub fn secured_notes(names: &Vec<String>) -> (r: Vec<String>)
    ensures
        texts(r@) == secured_only(texts(names@)),
{
    let mut r: Vec<String> = Vec::new();
    let mut i: usize = 0;
    while i < names.len()
        invariant
            i <= names@.len(),
            texts(r@) == secured_only(texts(names@.subrange(0, i as int))),
        decreases names@.len() - i,
    {
        let ghost before = r@;
        assert(texts(names@.subrange(0, i + 1)).drop_last() =~= texts(names@.subrange(0, i as int)));
        if is_secured_name(names[i].as_str()) {
            r.push(names[i].clone());
            assert(texts(r@) =~= texts(before).push(names@[i as int]@));
        }
        i = i + 1;
    }
    assert(names@.subrange(0, names@.len() as int) =~= names@);
    r
}

/// The repositories among the entries `names` of the notes root: every entry
/// but a registry file.
pub fn repository_names(names: &Vec<String>) -> (r: Vec<String>)
    ensures
        texts(r@) == all_but(texts(names@), registry_name()),
{
    proof {
        reveal_strlit("note-db.json");
        assert("note-db.json"@ =~= registry_name());
    }
    let registry = "note-db.json".to_owned();
    let mut r: Vec<String> = Vec::new();
    let mut i: usize = 0;
    while i < names.len()
        invariant
            i <= names@.len(),
            registry@ == registry_name(),
            texts(r@) == all_but(texts(names@.subrange(0, i as int)), registry_name()),
        decreases names@.len() - i,
    {
        let ghost before = r@;
        assert(texts(names@.subrange(0, i + 1)).drop_last() =~= texts(names@.subrange(0, i as int)));
        if names[i] != registry {
            r.push(names[i].clone());
            assert(texts(r@) =~= texts(before).push(names@[i as int]@));
        }
        i = i + 1;
    }
    assert(names@.subrange(0, names@.len() as int) =~= names@);
    r
}

} // verus!
