use vstd::prelude::*;

use crate::domain::types::ForwardType;
use crate::text::{decimal, decimal_string, same_text, texts};

verus! {

/// A port forward of a session.
#[derive(Debug)]
pub struct PortForwardRule {
    pub id: String,
    pub kind: ForwardType,
    pub listen_host: String,
    pub listen_port: u16,
    pub target_host: String,
    pub target_port: u16,
    pub enabled: bool,
}

impl Clone for PortForwardRule {
    fn clone(&self) -> (res: Self)
        ensures
            res == *self,
    {
        PortForwardRule {
            id: self.id.clone(),
            kind: self.kind,
            listen_host: self.listen_host.clone(),
            listen_port: self.listen_port,
            target_host: self.target_host.clone(),
            target_port: self.target_port,
            enabled: self.enabled,
        }
    }
}

/// What the user side asks of a running session.
#[derive(Debug)]
pub enum SshCommand {
    Input(Vec<u8>),
    Resize { cols: u32, rows: u32 },
    AddPortForward(PortForwardRule),
    RemovePortForward(String),
    ClearPortForwards,
    Disconnect,
}

/// What a running session reports.
#[derive(Debug)]
pub enum SshEvent {
    Connected,
    Data(Vec<u8>),
    Error(String),
    Disconnected,
}

/// A remote forward the server holds for a rule: the rule's id, and the address and port the
/// server bound.
#[derive(Debug)]
pub struct RemoteBinding {
    pub id: String,
    pub host: String,
    pub port: u16,
}

/// Where connections that reach a bound remote address and port are sent.
#[derive(Debug)]
pub struct RemoteTarget {
    pub host: String,
    pub port: u16,
    pub target_host: String,
    pub target_port: u16,
}

/// What a running session keeps of its port forwards: the ids of the rules whose local
/// listeners run, the remote forwards the server holds, and where remote connections go.
#[derive(Debug)]
pub struct ForwardBook {
    pub local: Vec<String>,
    pub remote: Vec<RemoteBinding>,
    pub targets: Vec<RemoteTarget>,
}

/// A step that the session loop performs for the book.
#[derive(Debug)]
pub enum SessionAction {
    /// Send input to the shell.
    SendData(Vec<u8>),
    /// Tell the server the terminal's new size.
    WindowChange { cols: u32, rows: u32 },
    /// Stop the local listener of a rule.
    AbortLocal(String),
    /// Start a local listener for a rule (the loop ends with an error where binding fails).
    StartLocal(PortForwardRule),
    /// Ask the server to stop a remote forward.
    CancelRemote { host: String, port: u16 },
    /// Ask the server for a remote forward, then report the bound port with `remote_bound`.
    RequestRemote(PortForwardRule),
    /// Leave the session loop.
    Close,
}

pub open spec fn binding_view(b: RemoteBinding) -> (Seq<char>, Seq<char>, u16) {
    (b.id@, b.host@, b.port)
}

pub open spec fn target_view(t: RemoteTarget) -> (Seq<char>, u16, Seq<char>, u16) {
    (t.host@, t.port, t.target_host@, t.target_port)
}

/// What a book holds.
pub ghost struct BookView {
    pub local: Seq<Seq<char>>,
    pub remote: Seq<(Seq<char>, Seq<char>, u16)>,
    pub targets: Seq<(Seq<char>, u16, Seq<char>, u16)>,
}

/// An action by its contents.
pub ghost enum ActionView {
    SendData(Seq<u8>),
    WindowChange(u32, u32),
    AbortLocal(Seq<char>),
    StartLocal(PortForwardRule),
    CancelRemote(Seq<char>, u16),
    RequestRemote(PortForwardRule),
    Close,
}

pub open spec fn action_view(a: SessionAction) -> ActionView {
    match a {
        SessionAction::SendData(d) => ActionView::SendData(d@),
        SessionAction::WindowChange { cols, rows } => ActionView::WindowChange(cols, rows),
        SessionAction::AbortLocal(id) => ActionView::AbortLocal(id@),
        SessionAction::StartLocal(r) => ActionView::StartLocal(r),
        SessionAction::CancelRemote { host, port } => ActionView::CancelRemote(host@, port),
        SessionAction::RequestRemote(r) => ActionView::RequestRemote(r),
        SessionAction::Close => ActionView::Close,
    }
}

pub open spec fn actions_view(acts: Seq<SessionAction>) -> Seq<ActionView> {
    acts.map_values(|a: SessionAction| action_view(a))
}

/// `ids` without `id`.
pub open spec fn ids_without(ids: Seq<Seq<char>>, id: Seq<char>) -> Seq<Seq<char>>
    decreases ids.len(),
{
    if ids.len() == 0 {
        ids
    } else {
        let prev = ids_without(ids.drop_last(), id);
        if ids.last() == id {
            prev
        } else {
            prev.push(ids.last())
        }
    }
}

/// The bindings without those of the rule `id`.
pub open spec fn bindings_without(bs: Seq<(Seq<char>, Seq<char>, u16)>, id: Seq<char>) -> Seq<(Seq<char>, Seq<char>, u16)>
    decreases bs.len(),
{
    if bs.len() == 0 {
        bs
    } else {
        let prev = bindings_without(bs.drop_last(), id);
        if bs.last().0 == id {
            prev
        } else {
            prev.push(bs.last())
        }
    }
}

/// The targets without those of the bound address `host`:`port`.
pub open spec fn targets_without(ts: Seq<(Seq<char>, u16, Seq<char>, u16)>, host: Seq<char>, port: u16) -> Seq<(Seq<char>, u16, Seq<char>, u16)>
    decreases ts.len(),
{
    if ts.len() == 0 {
        ts
    } else {
        let prev = targets_without(ts.drop_last(), host, port);
        if ts.last().0 == host && ts.last().1 == port {
            prev
        } else {
            prev.push(ts.last())
        }
    }
}

/// The first binding of the rule `id`: its bound address and port.
pub open spec fn find_binding(bs: Seq<(Seq<char>, Seq<char>, u16)>, id: Seq<char>) -> Option<(Seq<char>, u16)>
    decreases bs.len(),
{
    if bs.len() == 0 {
        None
    } else if bs[0].0 == id {
        Some((bs[0].1, bs[0].2))
    } else {
        find_binding(bs.drop_first(), id)
    }
}

/// The book and the actions after a port forward is removed: its local listener stops and its
/// remote forward is cancelled, with its target, where there are such.
pub open spec fn removal_outcome(v: BookView, id: Seq<char>) -> (BookView, Seq<ActionView>) {
    let abort: Seq<ActionView> = if v.local.contains(id) {
        seq![ActionView::AbortLocal(id)]
    } else {
        Seq::empty()
    };
    match find_binding(v.remote, id) {
        Some((h, p)) => (
            BookView {
                local: ids_without(v.local, id),
                remote: bindings_without(v.remote, id),
                targets: targets_without(v.targets, h, p),
            },
            abort.push(ActionView::CancelRemote(h, p)),
        ),
        None => (BookView { local: ids_without(v.local, id), ..v }, abort),
    }
}

/// The book and the actions after a rule is added: nothing for a disabled rule; a local rule
/// stops a listener of the same id and starts its own; a remote rule cancels a remote forward
/// of the same id (and its target) and asks for its own.
pub open spec fn add_outcome(v: BookView, rule: PortForwardRule) -> (BookView, Seq<ActionView>) {
    let id = rule.id@;
    if !rule.enabled {
        (v, Seq::empty())
    } else if rule.kind == ForwardType::Local {
        let abort: Seq<ActionView> = if v.local.contains(id) {
            seq![ActionView::AbortLocal(id)]
        } else {
            Seq::empty()
        };
        (
            BookView { local: ids_without(v.local, id).push(id), ..v },
            abort.push(ActionView::StartLocal(rule)),
        )
    } else {
        match find_binding(v.remote, id) {
            Some((h, p)) => (
                BookView {
                    remote: bindings_without(v.remote, id),
                    targets: targets_without(v.targets, h, p),
                    ..v
                },
                seq![ActionView::CancelRemote(h, p), ActionView::RequestRemote(rule)],
            ),
            None => (v, seq![ActionView::RequestRemote(rule)]),
        }
    }
}

/// Aborting every local listener, then cancelling every remote forward, in the book's order.
pub open spec fn teardown_actions(v: BookView) -> Seq<ActionView> {
    Seq::new(v.local.len(), |i: int| ActionView::AbortLocal(v.local[i])) + Seq::new(
        v.remote.len(),
        |i: int| ActionView::CancelRemote(v.remote[i].1, v.remote[i].2),
    )
}

/// The target of the first entry bound at `host`:`port`.
pub open spec fn first_exact_target(ts: Seq<(Seq<char>, u16, Seq<char>, u16)>, host: Seq<char>, port: u16) -> Option<(Seq<char>, u16)>
    decreases ts.len(),
{
    if ts.len() == 0 {
        None
    } else if ts[0].0 == host && ts[0].1 == port {
        Some((ts[0].2, ts[0].3))
    } else {
        first_exact_target(ts.drop_first(), host, port)
    }
}

/// The target of the first entry bound on `port`, whatever its address.
pub open spec fn first_port_target(ts: Seq<(Seq<char>, u16, Seq<char>, u16)>, port: u16) -> Option<(Seq<char>, u16)>
    decreases ts.len(),
{
    if ts.len() == 0 {
        None
    } else if ts[0].1 == port {
        Some((ts[0].2, ts[0].3))
    } else {
        first_port_target(ts.drop_first(), port)
    }
}

/// Where a connection that the server forwards from `host`:`port` goes: the target of that
/// exact binding, else of one bound on the same port.
pub open spec fn spec_reverse_target(ts: Seq<(Seq<char>, u16, Seq<char>, u16)>, host: Seq<char>, port: u16) -> Option<(Seq<char>, u16)> {
    match first_exact_target(ts, host, port) {
        Some(t) => Some(t),
        None => first_port_target(ts, port),
    }
}

impl ForwardBook {
    pub open spec fn view(&self) -> BookView {
        BookView {
            local: texts(self.local@),
            remote: self.remote@.map_values(|b: RemoteBinding| binding_view(b)),
            targets: self.targets@.map_values(|t: RemoteTarget| target_view(t)),
        }
    }

    /// An empty book.
    pub fn new() -> (b: ForwardBook)
        ensures
            b.view().local.len() == 0,
            b.view().remote.len() == 0,
            b.view().targets.len() == 0,
    {
        ForwardBook { local: Vec::new(), remote: Vec::new(), targets: Vec::new() }
    }
}

impl ForwardBook {
    /// Drops `id` from the running local listeners; returns whether it was there.
    fn forget_local(&mut self, id: &str) -> (had: bool)
        ensures
            had == old(self).view().local.contains(id@),
            final(self).view() == (BookView { local: ids_without(old(self).view().local, id@), ..old(self).view() }),
    {
        let ghost ids = texts(self.local@);
        let mut kept: Vec<String> = Vec::new();
        let mut had = false;
        let mut i: usize = 0;
        while i < self.local.len()
            invariant
                i <= self.local.len(),
                ids == texts(self.local@),
                texts(kept@) == ids_without(ids.take(i as int), id@),
                had == ids.take(i as int).contains(id@),
            decreases self.local.len() - i,
        {
            assert(ids.take(i + 1).drop_last() == ids.take(i as int));
            assert(ids.take(i + 1).last() == ids[i as int]);
            if same_text(self.local[i].as_str(), id) {
                had = true;
            } else {
                let ghost before = texts(kept@);
                kept.push(self.local[i].clone());
                assert(texts(kept@) =~= before.push(ids[i as int]));
            }
            proof {
                if ids.take(i + 1).contains(id@) && !ids.take(i as int).contains(id@) {
                    let j = choose|j: int| 0 <= j < i + 1 && #[trigger] ids.take(i + 1)[j] == id@;
                    assert(j == i);
                }
                if ids.take(i as int).contains(id@) {
                    let j = choose|j: int| 0 <= j < i && #[trigger] ids.take(i as int)[j] == id@;
                    assert(ids.take(i + 1)[j] == id@);
                }
            }
            i += 1;
        }
        assert(ids.take(ids.len() as int) == ids);
        self.local = kept;
        had
    }

    /// Takes the first binding of the rule `id` and drops every binding of it.
    fn take_binding(&mut self, id: &str) -> (found: Option<(String, u16)>)
        ensures
            match find_binding(old(self).view().remote, id@) {
                Some((h, p)) => found matches Some(f) && f.0@ == h && f.1 == p,
                None => found is None,
            },
            final(self).view() == (BookView { remote: bindings_without(old(self).view().remote, id@), ..old(self).view() }),
    {
        let ghost bs = self.view().remote;
        let mut kept: Vec<RemoteBinding> = Vec::new();
        let mut found: Option<(String, u16)> = None;
        let mut i: usize = 0;
        assert(bs.skip(0) == bs);
        assert(bs.take(0).len() == 0);
        while i < self.remote.len()
            invariant
                i <= self.remote.len(),
                bs == self.remote@.map_values(|b: RemoteBinding| binding_view(b)),
                kept@.map_values(|b: RemoteBinding| binding_view(b)) == bindings_without(bs.take(i as int), id@),
                match find_binding(bs.take(i as int), id@) {
                    Some((h, p)) => found matches Some(f) && f.0@ == h && f.1 == p,
                    None => found is None,
                },
                find_binding(bs, id@) == (match find_binding(bs.take(i as int), id@) {
                    Some(x) => Some(x),
                    None => find_binding(bs.skip(i as int), id@),
                }),
            decreases self.remote.len() - i,
        {
            assert(bs.take(i + 1).drop_last() == bs.take(i as int));
            assert(bs.take(i + 1).last() == bs[i as int]);
            proof {
                lemma_find_binding_step(bs, id@, i as int);
            }
            let b = &self.remote[i];
            if same_text(b.id.as_str(), id) {
                if found.is_none() {
                    found = Some((b.host.clone(), b.port));
                }
            } else {
                let ghost before = kept@.map_values(|b: RemoteBinding| binding_view(b));
                kept.push(RemoteBinding { id: b.id.clone(), host: b.host.clone(), port: b.port });
                assert(kept@.map_values(|b: RemoteBinding| binding_view(b)) =~= before.push(bs[i as int]));
            }
            i += 1;
        }
        assert(bs.take(bs.len() as int) == bs);
        self.remote = kept;
        found
    }

    /// Drops every target of the bound address `host`:`port`.
    fn forget_target(&mut self, host: &str, port: u16)
        ensures
            final(self).view() == (BookView { targets: targets_without(old(self).view().targets, host@, port), ..old(self).view() }),
    {
        let ghost ts = self.view().targets;
        let mut kept: Vec<RemoteTarget> = Vec::new();
        let mut i: usize = 0;
        while i < self.targets.len()
            invariant
                i <= self.targets.len(),
                ts == self.targets@.map_values(|t: RemoteTarget| target_view(t)),
                kept@.map_values(|t: RemoteTarget| target_view(t)) == targets_without(ts.take(i as int), host@, port),
            decreases self.targets.len() - i,
        {
            assert(ts.take(i + 1).drop_last() == ts.take(i as int));
            assert(ts.take(i + 1).last() == ts[i as int]);
            let t = &self.targets[i];
            if !(same_text(t.host.as_str(), host) && t.port == port) {
                let ghost before = kept@.map_values(|t: RemoteTarget| target_view(t));
                kept.push(RemoteTarget {
                    host: t.host.clone(),
                    port: t.port,
                    target_host: t.target_host.clone(),
                    target_port: t.target_port,
                });
                assert(kept@.map_values(|t: RemoteTarget| target_view(t)) =~= before.push(ts[i as int]));
            }
            i += 1;
        }
        assert(ts.take(ts.len() as int) == ts);
        self.targets = kept;
    }
}

/// Looking for the first binding of `id` splits at any index.
pub proof fn lemma_find_binding_step(bs: Seq<(Seq<char>, Seq<char>, u16)>, id: Seq<char>, i: int)
    requires
        0 <= i < bs.len(),
    ensures
        find_binding(bs.skip(i), id) == (if bs[i].0 == id {
            Some((bs[i].1, bs[i].2))
        } else {
            find_binding(bs.skip(i + 1), id)
        }),
        find_binding(bs.take(i + 1), id) == (match find_binding(bs.take(i), id) {
            Some(x) => Some(x),
            None => if bs[i].0 == id {
                Some((bs[i].1, bs[i].2))
            } else {
                None
            },
        }),
    decreases i,
{
    assert(bs.skip(i).drop_first() == bs.skip(i + 1));
    if i == 0 {
        assert(bs.take(1).drop_first().len() == 0);
        assert(bs.take(0).len() == 0);
        assert(bs.take(1)[0] == bs[0]);
        assert(bs.skip(0) == bs);
        assert(find_binding(bs.take(1).drop_first(), id) is None);
        assert(find_binding(bs.take(0), id) is None);
    } else {
        assert(bs.drop_first()[i - 1] == bs[i]);
        lemma_find_binding_step(bs.drop_first(), id, i - 1);
        assert(bs.drop_first().skip(i - 1) == bs.skip(i));
        assert(bs.drop_first().skip(i) == bs.skip(i + 1));
        assert(bs.take(i + 1).drop_first() == bs.drop_first().take(i));
        assert(bs.take(i).drop_first() == bs.drop_first().take(i - 1));
        assert(bs.take(i + 1)[0] == bs[0]);
        assert(bs.take(i)[0] == bs[0]);
    }
}

/// No binding of `id` is found exactly when none has that id.
pub proof fn lemma_find_binding_none(bs: Seq<(Seq<char>, Seq<char>, u16)>, id: Seq<char>)
    ensures
        find_binding(bs, id) is None <==> forall|i: int| 0 <= i < bs.len() ==> (#[trigger] bs[i]).0 != id,
    decreases bs.len(),
{
    if bs.len() > 0 {
        lemma_find_binding_none(bs.drop_first(), id);
        if find_binding(bs, id) is None {
            assert forall|i: int| 0 <= i < bs.len() implies (#[trigger] bs[i]).0 != id by {
                if i > 0 {
                    assert(bs.drop_first()[i - 1] == bs[i]);
                }
            }
        }
        if forall|i: int| 0 <= i < bs.len() ==> (#[trigger] bs[i]).0 != id {
            assert forall|i: int| 0 <= i < bs.drop_first().len() implies (#[trigger] bs.drop_first()[i]).0 != id by {
                assert(bs.drop_first()[i] == bs[i + 1]);
            }
        }
    }
}

/// Dropping the bindings of an id that none has changes nothing.
pub proof fn lemma_bindings_without_absent(bs: Seq<(Seq<char>, Seq<char>, u16)>, id: Seq<char>)
    requires
        forall|i: int| 0 <= i < bs.len() ==> (#[trigger] bs[i]).0 != id,
    ensures
        bindings_without(bs, id) == bs,
    decreases bs.len(),
{
    if bs.len() > 0 {
        assert forall|i: int| 0 <= i < bs.drop_last().len() implies (#[trigger] bs.drop_last()[i]).0 != id by {
            assert(bs.drop_last()[i] == bs[i]);
        }
        lemma_bindings_without_absent(bs.drop_last(), id);
        assert(bs.drop_last().push(bs.last()) == bs);
    }
}

impl ForwardBook {
    fn one_action(a: SessionAction) -> (acts: Vec<SessionAction>)
        ensures
            actions_view(acts@) == seq![action_view(a)],
    {
        let mut acts: Vec<SessionAction> = Vec::new();
        acts.push(a);
        assert(actions_view(acts@) =~= seq![action_view(a)]);
        acts
    }

    /// Takes in a port forward rule.
    fn add_forward(&mut self, rule: PortForwardRule) -> (acts: Vec<SessionAction>)
        ensures
            final(self).view() == add_outcome(old(self).view(), rule).0,
            actions_view(acts@) == add_outcome(old(self).view(), rule).1,
    {
        let ghost v = self.view();
        let ghost r = rule;
        let mut acts: Vec<SessionAction> = Vec::new();
        if !rule.enabled {
            assert(actions_view(acts@) =~= Seq::<ActionView>::empty());
            return acts;
        }
        match rule.kind {
            ForwardType::Local => {
                let id = rule.id.clone();
                let had = self.forget_local(id.as_str());
                if had {
                    acts.push(SessionAction::AbortLocal(id.clone()));
                }
                let ghost mid = self.view();
                self.local.push(id);
                assert(texts(self.local@) =~= mid.local.push(r.id@));
                let ghost before = actions_view(acts@);
                acts.push(SessionAction::StartLocal(rule));
                assert(actions_view(acts@) =~= before.push(ActionView::StartLocal(r)));
                assert(before =~= (if v.local.contains(r.id@) {
                    seq![ActionView::AbortLocal(r.id@)]
                } else {
                    Seq::<ActionView>::empty()
                }));
            },
            ForwardType::Remote => {
                let found = self.take_binding(rule.id.as_str());
                match found {
                    Some((h, p)) => {
                        self.forget_target(h.as_str(), p);
                        acts.push(SessionAction::CancelRemote { host: h, port: p });
                    },
                    None => {
                        proof {
                            lemma_find_binding_none(v.remote, r.id@);
                            lemma_bindings_without_absent(v.remote, r.id@);
                        }
                    },
                }
                let ghost before = actions_view(acts@);
                acts.push(SessionAction::RequestRemote(rule));
                assert(actions_view(acts@) =~= before.push(ActionView::RequestRemote(r)));
            },
        }
        acts
    }

    /// Removes the port forward `id`.
    fn remove_forward(&mut self, id: &str) -> (acts: Vec<SessionAction>)
        ensures
            final(self).view() == removal_outcome(old(self).view(), id@).0,
            actions_view(acts@) == removal_outcome(old(self).view(), id@).1,
    {
        let ghost v = self.view();
        let mut acts: Vec<SessionAction> = Vec::new();
        let had = self.forget_local(id);
        if had {
            acts.push(SessionAction::AbortLocal(String::from_str(id)));
        }
        let ghost before = actions_view(acts@);
        assert(before =~= (if v.local.contains(id@) {
            seq![ActionView::AbortLocal(id@)]
        } else {
            Seq::<ActionView>::empty()
        }));
        let found = self.take_binding(id);
        match found {
            Some((h, p)) => {
                self.forget_target(h.as_str(), p);
                acts.push(SessionAction::CancelRemote { host: h, port: p });
                assert(actions_view(acts@) =~= before.push(ActionView::CancelRemote(h@, p)));
            },
            None => {
                proof {
                    lemma_find_binding_none(v.remote, id@);
                    lemma_bindings_without_absent(v.remote, id@);
                }
            },
        }
        acts
    }

    /// Stops every local listener and cancels every remote forward; the book keeps no
    /// listener and no remote forward.
    pub fn teardown(&mut self) -> (acts: Vec<SessionAction>)
        ensures
            final(self).view() == (BookView {
                local: Seq::empty(),
                remote: Seq::empty(),
                ..old(self).view()
            }),
            actions_view(acts@) == teardown_actions(old(self).view()),
    {
        let ghost v = self.view();
        let mut acts: Vec<SessionAction> = Vec::new();
        let mut i: usize = 0;
        while i < self.local.len()
            invariant
                i <= self.local.len(),
                v == self.view(),
                actions_view(acts@) == Seq::new(i as nat, |k: int| ActionView::AbortLocal(v.local[k])),
            decreases self.local.len() - i,
        {
            let ghost before = actions_view(acts@);
            let c = self.local[i].clone();
            assert(c@ == v.local[i as int]);
            acts.push(SessionAction::AbortLocal(c));
            assert(actions_view(acts@) =~= before.push(ActionView::AbortLocal(v.local[i as int])));
            assert(actions_view(acts@) =~= Seq::new((i + 1) as nat, |k: int| ActionView::AbortLocal(v.local[k])));
            i += 1;
        }
        let ghost aborts = actions_view(acts@);
        let mut j: usize = 0;
        while j < self.remote.len()
            invariant
                j <= self.remote.len(),
                v == self.view(),
                aborts.len() == v.local.len(),
                actions_view(acts@) == aborts + Seq::new(
                    j as nat,
                    |k: int| ActionView::CancelRemote(v.remote[k].1, v.remote[k].2),
                ),
            decreases self.remote.len() - j,
        {
            let b = &self.remote[j];
            let ghost before = actions_view(acts@);
            let h = b.host.clone();
            assert(h@ == v.remote[j as int].1 && b.port == v.remote[j as int].2);
            acts.push(SessionAction::CancelRemote { host: h, port: b.port });
            assert(actions_view(acts@) =~= before.push(ActionView::CancelRemote(v.remote[j as int].1, v.remote[j as int].2)));
            assert(actions_view(acts@) =~= aborts + Seq::new(
                (j + 1) as nat,
                |k: int| ActionView::CancelRemote(v.remote[k].1, v.remote[k].2),
            ));
            j += 1;
        }
        self.local = Vec::new();
        self.remote = Vec::new();
        assert(self.view().local =~= Seq::<Seq<char>>::empty());
        assert(self.view().remote =~= Seq::<(Seq<char>, Seq<char>, u16)>::empty());
        acts
    }

    /// Records the remote forward that the server bound on `bound_port` for `rule`, and where
    /// its connections go; an earlier forward of the same rule, or target of the same bound
    /// address, is replaced.
    pub fn remote_bound(&mut self, rule: &PortForwardRule, bound_port: u16)
        ensures
            final(self).view() == (BookView {
                local: old(self).view().local,
                remote: bindings_without(old(self).view().remote, rule.id@).push(
                    (rule.id@, rule.listen_host@, bound_port),
                ),
                targets: targets_without(old(self).view().targets, rule.listen_host@, bound_port).push(
                    (rule.listen_host@, bound_port, rule.target_host@, rule.target_port),
                ),
            }),
    {
        let _ = self.take_binding(rule.id.as_str());
        self.forget_target(rule.listen_host.as_str(), bound_port);
        let ghost mid = self.view();
        self.remote.push(RemoteBinding { id: rule.id.clone(), host: rule.listen_host.clone(), port: bound_port });
        self.targets.push(RemoteTarget {
            host: rule.listen_host.clone(),
            port: bound_port,
            target_host: rule.target_host.clone(),
            target_port: rule.target_port,
        });
        assert(self.view().remote =~= mid.remote.push((rule.id@, rule.listen_host@, bound_port)));
        assert(self.view().targets =~= mid.targets.push(
            (rule.listen_host@, bound_port, rule.target_host@, rule.target_port),
        ));
    }

    /// Acts on a command of the user side: input and resizing go to the server, port forward
    /// changes update the book, a disconnect closes the loop.
    pub fn on_command(&mut self, cmd: SshCommand) -> (acts: Vec<SessionAction>)
        ensures
            match cmd {
                SshCommand::Input(d) => *final(self) == *old(self) && actions_view(acts@) == seq![ActionView::SendData(d@)],
                SshCommand::Resize { cols, rows } => *final(self) == *old(self) && actions_view(acts@) == seq![ActionView::WindowChange(cols, rows)],
                SshCommand::AddPortForward(rule) => final(self).view() == add_outcome(old(self).view(), rule).0
                    && actions_view(acts@) == add_outcome(old(self).view(), rule).1,
                SshCommand::RemovePortForward(id) => final(self).view() == removal_outcome(old(self).view(), id@).0
                    && actions_view(acts@) == removal_outcome(old(self).view(), id@).1,
                SshCommand::ClearPortForwards => final(self).view() == (BookView {
                    local: Seq::empty(),
                    remote: Seq::empty(),
                    targets: Seq::empty(),
                }) && actions_view(acts@) == teardown_actions(old(self).view()),
                SshCommand::Disconnect => *final(self) == *old(self) && actions_view(acts@) == seq![ActionView::Close],
            },
    {
        match cmd {
            SshCommand::Input(d) => Self::one_action(SessionAction::SendData(d)),
            SshCommand::Resize { cols, rows } => Self::one_action(SessionAction::WindowChange { cols, rows }),
            SshCommand::AddPortForward(rule) => self.add_forward(rule),
            SshCommand::RemovePortForward(id) => self.remove_forward(id.as_str()),
            SshCommand::ClearPortForwards => {
                let acts = self.teardown();
                self.targets = Vec::new();
                assert(self.view().targets =~= Seq::<(Seq<char>, u16, Seq<char>, u16)>::empty());
                acts
            },
            SshCommand::Disconnect => Self::one_action(SessionAction::Close),
        }
    }

    /// Where a connection that the server forwards from `host`:`port` goes.
    pub fn reverse_target(&self, host: &str, port: u16) -> (r: Option<(String, u16)>)
        ensures
            match spec_reverse_target(self.view().targets, host@, port) {
                Some((h, p)) => r matches Some(x) && x.0@ == h && x.1 == p,
                None => r is None,
            },
    {
        let ghost ts = self.view().targets;
        let mut i: usize = 0;
        assert(ts.skip(0) == ts);
        while i < self.targets.len()
            invariant
                i <= self.targets.len(),
                ts == self.view().targets,
                first_exact_target(ts, host@, port) == first_exact_target(ts.skip(i as int), host@, port),
            decreases self.targets.len() - i,
        {
            assert(ts.skip(i as int).drop_first() == ts.skip(i + 1));
            assert(ts.skip(i as int)[0] == ts[i as int]);
            let t = &self.targets[i];
            if same_text(t.host.as_str(), host) && t.port == port {
                return Some((t.target_host.clone(), t.target_port));
            }
            i += 1;
        }
        assert(ts.skip(i as int).len() == 0);
        let mut k: usize = 0;
        while k < self.targets.len()
            invariant
                k <= self.targets.len(),
                ts == self.view().targets,
                first_exact_target(ts, host@, port) is None,
                first_port_target(ts, port) == first_port_target(ts.skip(k as int), port),
            decreases self.targets.len() - k,
        {
            assert(ts.skip(k as int).drop_first() == ts.skip(k + 1));
            assert(ts.skip(k as int)[0] == ts[k as int]);
            let t = &self.targets[k];
            if t.port == port {
                return Some((t.target_host.clone(), t.target_port));
            }
            k += 1;
        }
        assert(ts.skip(k as int).len() == 0);
        None
    }
}

/// What the shell channel delivers.
#[derive(Debug)]
pub enum ChannelMessage {
    Data(Vec<u8>),
    ExtendedData(Vec<u8>),
    Eof,
    Closed,
    Other,
}

/// What the session loop does with a channel message.
#[derive(Debug)]
pub enum ChannelOutcome {
    /// Report this event to the user side.
    Forward(SshEvent),
    /// Leave the loop.
    Stop,
    /// Nothing.
    Ignore,
}

/// Output of the shell, on either stream, is passed on as data; the end of the stream or of
/// the channel ends the loop; anything else is ignored.
pub fn on_channel_message(msg: ChannelMessage) -> (out: ChannelOutcome)
    ensures
        match msg {
            ChannelMessage::Data(d) => out matches ChannelOutcome::Forward(SshEvent::Data(e)) && e@ == d@,
            ChannelMessage::ExtendedData(d) => out matches ChannelOutcome::Forward(SshEvent::Data(e)) && e@ == d@,
            ChannelMessage::Eof => out is Stop,
            ChannelMessage::Closed => out is Stop,
            ChannelMessage::Other => out is Ignore,
        },
{
    match msg {
        ChannelMessage::Data(d) => ChannelOutcome::Forward(SshEvent::Data(d)),
        ChannelMessage::ExtendedData(d) => ChannelOutcome::Forward(SshEvent::Data(d)),
        ChannelMessage::Eof => ChannelOutcome::Stop,
        ChannelMessage::Closed => ChannelOutcome::Stop,
        ChannelMessage::Other => ChannelOutcome::Ignore,
    }
}

/// Whether agent authentication may go on: it works by trying the keys of the ssh directory,
/// so it is refused when key discovery is off.
pub fn agent_auth_allowed(auto_discover_keys: bool) -> (r: Result<(), String>)
    ensures
        auto_discover_keys ==> r is Ok,
        !auto_discover_keys ==> (r matches Err(m) && m@ == "SSH agent auth not implemented yet"@),
{
    if !auto_discover_keys {
        return Err(String::from_str("SSH agent auth not implemented yet"));
    }
    Ok(())
}

/// How agent authentication ended, from the number of keys that could be loaded and tried and
/// whether the server accepted one: an error when none could be tried or all were refused.
pub fn agent_auth_outcome(attempted: usize, accepted_any: bool) -> (r: Result<(), String>)
    ensures
        attempted == 0 ==> (r matches Err(m) && m@ == "No usable SSH private keys found in ~/.ssh. Select a key manually or disable agent auth."@),
        attempted > 0 && !accepted_any ==> (r matches Err(m) && m@ == "Server rejected all discovered SSH private keys. Select a key manually."@),
        attempted > 0 && accepted_any ==> r is Ok,
{
    if attempted == 0 {
        return Err(String::from_str("No usable SSH private keys found in ~/.ssh. Select a key manually or disable agent auth."));
    }
    if !accepted_any {
        return Err(String::from_str("Server rejected all discovered SSH private keys. Select a key manually."));
    }
    Ok(())
}

/// What looking the server's key up in the known hosts gave: a match, no entry for the host,
/// a different key on the given line, or a failure with its message.
#[derive(Debug)]
pub enum KnownHostsCheck {
    Known,
    Unknown,
    Changed { line: usize },
    Failed(String),
}

/// What the session does with the server's key: go on, ask the user whether to trust it, or
/// refuse the connection with a message.
#[derive(Debug)]
pub enum HostKeyStep {
    Accept,
    AskUser,
    Reject(String),
}

/// The start of every refusal of a host key.
pub open spec fn key_refusal_head(host: Seq<char>, port: u16) -> Seq<char> {
    "Host key verification failed for "@ + host + ":"@ + decimal(port as nat)
}

fn refusal_head(host: &str, port: u16) -> (s: String)
    ensures
        s@ == key_refusal_head(host@, port),
{
    let mut s = String::from_str("Host key verification failed for ");
    s.append(host);
    s.append(":");
    let p = decimal_string(port as u64);
    s.append(p.as_str());
    s
}

/// A known key is accepted, an unknown one is put to the user, and a changed key or a failed
/// lookup refuses the connection, naming the host, the port and the key's fingerprint.
pub fn host_key_step(check: KnownHostsCheck, host: &str, port: u16, fingerprint: &str) -> (s: HostKeyStep)
    ensures
        match check {
            KnownHostsCheck::Known => s is Accept,
            KnownHostsCheck::Unknown => s is AskUser,
            KnownHostsCheck::Changed { line } => s matches HostKeyStep::Reject(m) && m@ == key_refusal_head(host@, port)
                + " ("@ + fingerprint@ + "): key changed (known_hosts line "@ + decimal(line as nat) + ")."@,
            KnownHostsCheck::Failed(e) => s matches HostKeyStep::Reject(m) && m@ == key_refusal_head(host@, port) + " ("@
                + fingerprint@ + "): "@ + e@,
        },
{
    match check {
        KnownHostsCheck::Known => HostKeyStep::Accept,
        KnownHostsCheck::Unknown => HostKeyStep::AskUser,
        KnownHostsCheck::Changed { line } => {
            let mut m = refusal_head(host, port);
            m.append(" (");
            m.append(fingerprint);
            m.append("): key changed (known_hosts line ");
            let l = decimal_string(line as u64);
            m.append(l.as_str());
            m.append(").");
            HostKeyStep::Reject(m)
        },
        KnownHostsCheck::Failed(e) => {
            let mut m = refusal_head(host, port);
            m.append(" (");
            m.append(fingerprint);
            m.append("): ");
            m.append(e.as_str());
            HostKeyStep::Reject(m)
        },
    }
}

/// The user's answer on an unknown key: trusted, the key is learned and the session goes on;
/// otherwise the connection is refused with a message naming the key.
pub fn unknown_host_answer(trusted: bool, host: &str, port: u16, fingerprint: &str) -> (r: Result<(), String>)
    ensures
        trusted ==> r is Ok,
        !trusted ==> (r matches Err(m) && m@ == key_refusal_head(host@, port) + " (unknown host key "@ + fingerprint@
            + ")."@),
{
    if trusted {
        return Ok(());
    }
    let mut m = refusal_head(host, port);
    m.append(" (unknown host key ");
    m.append(fingerprint);
    m.append(").");
    Err(m)
}

proof fn lemma_ids_without_gone(ids: Seq<Seq<char>>, id: Seq<char>)
    ensures
        !ids_without(ids, id).contains(id),
    decreases ids.len(),
{
    if ids.len() > 0 {
        lemma_ids_without_gone(ids.drop_last(), id);
        let prev = ids_without(ids.drop_last(), id);
        if ids.last() != id {
            assert forall|i: int| 0 <= i < prev.push(ids.last()).len() implies prev.push(ids.last())[i] != id by {
                if i < prev.len() {
                    assert(prev.push(ids.last())[i] == prev[i]);
                }
            }
        }
    }
}

proof fn lemma_bindings_without_gone(bs: Seq<(Seq<char>, Seq<char>, u16)>, id: Seq<char>)
    ensures
        forall|i: int| 0 <= i < bindings_without(bs, id).len() ==> (#[trigger] bindings_without(bs, id)[i]).0 != id,
    decreases bs.len(),
{
    if bs.len() > 0 {
        lemma_bindings_without_gone(bs.drop_last(), id);
        let prev = bindings_without(bs.drop_last(), id);
        if bs.last().0 != id {
            assert forall|i: int| 0 <= i < prev.push(bs.last()).len() implies (#[trigger] prev.push(bs.last())[i]).0 != id by {
                if i < prev.len() {
                    assert(prev.push(bs.last())[i] == prev[i]);
                }
            }
        }
    }
}

/// Once a port forward is removed, the book runs no local listener for it and holds no remote
/// forward of it.
pub proof fn lemma_removed_forward_gone(v: BookView, id: Seq<char>)
    ensures
        !removal_outcome(v, id).0.local.contains(id),
        find_binding(removal_outcome(v, id).0.remote, id) is None,
{
    lemma_ids_without_gone(v.local, id);
    match find_binding(v.remote, id) {
        Some(_) => {
            lemma_bindings_without_gone(v.remote, id);
            lemma_find_binding_none(bindings_without(v.remote, id), id);
        },
        None => {},
    }
}

proof fn lemma_targets_without_gone(ts: Seq<(Seq<char>, u16, Seq<char>, u16)>, host: Seq<char>, port: u16)
    ensures
        forall|i: int|
            0 <= i < targets_without(ts, host, port).len() ==> !((#[trigger] targets_without(ts, host, port)[i]).0
                == host && targets_without(ts, host, port)[i].1 == port),
    decreases ts.len(),
{
    if ts.len() > 0 {
        lemma_targets_without_gone(ts.drop_last(), host, port);
        let prev = targets_without(ts.drop_last(), host, port);
        if !(ts.last().0 == host && ts.last().1 == port) {
            assert forall|i: int| 0 <= i < prev.push(ts.last()).len() implies !((#[trigger] prev.push(ts.last())[i]).0
                == host && prev.push(ts.last())[i].1 == port) by {
                if i < prev.len() {
                    assert(prev.push(ts.last())[i] == prev[i]);
                }
            }
        }
    }
}

proof fn lemma_first_exact_after(s: Seq<(Seq<char>, u16, Seq<char>, u16)>, x: (Seq<char>, u16, Seq<char>, u16))
    requires
        forall|i: int| 0 <= i < s.len() ==> !((#[trigger] s[i]).0 == x.0 && s[i].1 == x.1),
    ensures
        first_exact_target(s.push(x), x.0, x.1) == Some((x.2, x.3)),
    decreases s.len(),
{
    if s.len() > 0 {
        assert(s.push(x).drop_first() =~= s.drop_first().push(x));
        assert(s.push(x)[0] == s[0]);
        assert forall|i: int| 0 <= i < s.drop_first().len() implies !((#[trigger] s.drop_first()[i]).0 == x.0
            && s.drop_first()[i].1 == x.1) by {
            assert(s.drop_first()[i] == s[i + 1]);
        }
        lemma_first_exact_after(s.drop_first(), x);
    } else {
        assert(s.push(x)[0] == x);
    }
}

/// Once the server has bound a remote forward, the connections it forwards from that bound
/// address go to the rule's target: what `remote_bound` records, `reverse_target` finds.
pub proof fn lemma_bound_forward_is_found(v: BookView, rule: PortForwardRule, bound_port: u16)
    ensures
        spec_reverse_target(
            targets_without(v.targets, rule.listen_host@, bound_port).push(
                (rule.listen_host@, bound_port, rule.target_host@, rule.target_port),
            ),
            rule.listen_host@,
            bound_port,
        ) == Some((rule.target_host@, rule.target_port)),
{
    lemma_targets_without_gone(v.targets, rule.listen_host@, bound_port);
    lemma_first_exact_after(
        targets_without(v.targets, rule.listen_host@, bound_port),
        (rule.listen_host@, bound_port, rule.target_host@, rule.target_port),
    );
}

/// Adding an enabled local forward leaves the book running one listener for it, and asks to
/// start it (after stopping a listener of the same id that ran before); a disabled rule
/// changes nothing.
pub proof fn lemma_added_local_forward_runs(v: BookView, rule: PortForwardRule)
    requires
        rule.kind == ForwardType::Local,
    ensures
        rule.enabled ==> add_outcome(v, rule).0.local.contains(rule.id@),
        rule.enabled ==> add_outcome(v, rule).1.last() == ActionView::StartLocal(rule),
        rule.enabled ==> forall|i: int|
            0 <= i < add_outcome(v, rule).0.local.len() - 1 ==> #[trigger] add_outcome(v, rule).0.local[i] != rule.id@,
        !rule.enabled ==> add_outcome(v, rule) == (v, Seq::<ActionView>::empty()),
{
    lemma_ids_without_gone(v.local, rule.id@);
    let kept = ids_without(v.local, rule.id@);
    if rule.enabled {
        assert(kept.push(rule.id@)[kept.len() as int] == rule.id@);
        assert forall|i: int| 0 <= i < kept.len() implies #[trigger] kept.push(rule.id@)[i] != rule.id@ by {
            assert(kept.push(rule.id@)[i] == kept[i]);
            if kept[i] == rule.id@ {
                assert(kept.contains(rule.id@));
            }
        }
    }
}

} // verus!
