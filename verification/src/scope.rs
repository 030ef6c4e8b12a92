//! The scope graph and the stack of active scopes over it.
//!
//! The nodes of the graph live in an arena that the scope manager owns; a
//! handle to a node is its position in the arena. Names are resolved against
//! the stack of active scopes only, innermost first.

use vstd::prelude::*;
use vstd::hash_map::StringHashMap;
use linked_hash_map::LinkedHashMap;
use crate::ast::{Expression, ExpressionView, Operator};
use crate::const_value::{assign_member, find_member, ConstValue, ConstValueKind, Type, TypeView, ValueView};
use crate::linked::{named_types_view, type_entries};

verus! {

/// A handle to a node of the scope graph: its position in the arena of the
/// scope manager that created it.
#[derive(Clone, Copy, Debug, PartialEq, Eq, Structural)]
pub struct ScopeRef(pub usize);

/// What a node of the scope graph holds.
#[derive(Debug, PartialEq, Eq)]
pub enum ScopeValue {
    /// A binding of a name to a value.
    ConstValue(ConstValue),
    /// A record declaration: its name and its fields in declaration order.
    Record { ident: String, members: LinkedHashMap<String, Type> },
    /// The marker of the root.
    Module,
}

/// What a node holds, as mathematics.
pub enum ScopeValueView {
    ConstValue(ValueView),
    Record { ident: Seq<char>, members: Seq<(Seq<char>, TypeView)> },
    Module,
}

impl View for ScopeValue {
    type V = ScopeValueView;

    open spec fn view(&self) -> ScopeValueView {
        match *self {
            ScopeValue::ConstValue(v) => ScopeValueView::ConstValue(v@),
            ScopeValue::Record { ident, members } => ScopeValueView::Record {
                ident: ident@,
                members: named_types_view(type_entries(members)),
            },
            ScopeValue::Module => ScopeValueView::Module,
        }
    }
}

impl ScopeValueView {
    /// The label under which a rendering shows what a node holds.
    pub open spec fn label(self) -> Seq<char> {
        match self {
            ScopeValueView::ConstValue(v) => if v.ty is Function {
                "Function"@
            } else {
                "Constant Value"@
            },
            ScopeValueView::Record { .. } => "Record"@,
            ScopeValueView::Module => "Module"@,
        }
    }

    /// The number of parts that a rendering shows below the label.
    pub open spec fn num_children(self) -> nat {
        match self {
            ScopeValueView::ConstValue(v) => match v.kind {
                crate::const_value::KindView::RecordInstance { members } => members.len(),
                _ => 0,
            },
            ScopeValueView::Record { .. } => 1,
            ScopeValueView::Module => 0,
        }
    }
}

impl ScopeValue {
    /// The label under which a rendering shows the value.
    pub fn label(&self) -> (r: &'static str)
        ensures
            r@ == self@.label(),
    {
        match self {
            ScopeValue::ConstValue(v) => match &v.ty {
                Type::Function { .. } => "Function",
                _ => "Constant Value",
            },
            ScopeValue::Record { .. } => "Record",
            ScopeValue::Module => "Module",
        }
    }

    /// The number of parts that a rendering shows below the label: those of
    /// a bound value, the one field list of a record declaration, none of
    /// the root marker.
    pub fn num_children(&self) -> (r: usize)
        ensures
            r == self@.num_children(),
    {
        match self {
            ScopeValue::ConstValue(v) => v.num_children(),
            ScopeValue::Record { .. } => 1,
            ScopeValue::Module => 0,
        }
    }
}

/// A node of the scope graph: what it holds, and its children by name.
pub struct Scope {
    pub value: ScopeValue,
    pub children: StringHashMap<ScopeRef>,
}

/// A node as mathematics: what it holds, and the map from the names of its
/// children to their handles.
pub struct ScopeView {
    pub value: ScopeValueView,
    pub children: Map<Seq<char>, ScopeRef>,
}

impl View for Scope {
    type V = ScopeView;

    open spec fn view(&self) -> ScopeView {
        ScopeView { value: self.value@, children: self.children@ }
    }
}

impl Scope {
    /// A node that holds `value` and has no children.
    pub fn new(value: ScopeValue) -> (r: Scope)
        ensures
            r@ == (ScopeView { value: value@, children: Map::empty() }),
    {
        Scope { value, children: StringHashMap::new() }
    }

    /// The label under which a rendering shows a node.
    pub fn label(&self) -> (r: &'static str)
        ensures
            r@ == "Scope"@,
    {
        "Scope"
    }

    /// The number of parts that a rendering shows below the label: the
    /// value, and the group of the children where there are any.
    pub fn num_children(&self) -> (r: usize)
        ensures
            r == if self@.children.len() > 0 {
                2nat
            } else {
                1nat
            },
    {
        broadcast use vstd::hash_map::group_hash_map_axioms;

        if self.children.len() > 0 {
            2
        } else {
            1
        }
    }
}

/// The scope graph with its stack of active scopes, as mathematics: the nodes
/// of the arena by position, and the active scopes, the innermost last.
pub struct Scopes {
    pub nodes: Seq<ScopeView>,
    pub stack: Seq<ScopeRef>,
}

impl Scopes {
    /// The graph that holds `root` alone, with `root` active.
    pub open spec fn rooted(root: ScopeView) -> Scopes {
        Scopes { nodes: seq![root], stack: seq![ScopeRef(0)] }
    }

    /// Whether `rf` is a handle to a node of this graph.
    pub open spec fn contains(self, rf: ScopeRef) -> bool {
        rf.0 < self.nodes.len()
    }

    /// Every handle in the graph leads to a node of the graph, and some scope
    /// is active.
    pub open spec fn wf(self) -> bool {
        &&& self.nodes.len() > 0
        &&& self.stack.len() > 0
        &&& forall|i: int| 0 <= i < self.stack.len() ==> self.contains(#[trigger] self.stack[i])
        &&& forall|i: int, name: Seq<char>|
            0 <= i < self.nodes.len() && #[trigger] self.nodes[i].children.contains_key(name)
                ==> self.contains(self.nodes[i].children[name])
    }

    /// The node that `name` resolves to when only the `depth` outermost active
    /// scopes are searched, the innermost of them first.
    pub open spec fn resolve_below(self, name: Seq<char>, depth: nat) -> Option<ScopeRef>
        decreases depth,
    {
        if depth == 0 || depth > self.stack.len() {
            None
        } else {
            let frame = self.nodes[self.stack[depth - 1].0 as int];
            if frame.children.contains_key(name) {
                Some(frame.children[name])
            } else {
                self.resolve_below(name, (depth - 1) as nat)
            }
        }
    }

    /// The node that `name` resolves to: the child of that name of the
    /// innermost active scope that has one.
    pub open spec fn resolve(self, name: Seq<char>) -> Option<ScopeRef> {
        self.resolve_below(name, self.stack.len())
    }

    /// The handle that the next new node will get.
    pub open spec fn next_ref(self) -> ScopeRef {
        ScopeRef(self.nodes.len() as usize)
    }

    /// The graph after `rf` became the innermost active scope.
    pub open spec fn push(self, rf: ScopeRef) -> Scopes {
        Scopes { nodes: self.nodes, stack: self.stack.push(rf) }
    }

    /// The graph after the innermost active scope left the stack.
    pub open spec fn pop(self) -> Scopes {
        Scopes { nodes: self.nodes, stack: self.stack.drop_last() }
    }

    /// The graph after the node `rf` got the value `value`.
    pub open spec fn set_value(self, rf: ScopeRef, value: ScopeValueView) -> Scopes {
        Scopes {
            nodes: self.nodes.update(
                rf.0 as int,
                ScopeView { value, children: self.nodes[rf.0 as int].children },
            ),
            stack: self.stack,
        }
    }

    /// The graph after a new node that holds `value` became the child `name`
    /// of the innermost active scope.
    pub open spec fn declare(self, name: Seq<char>, value: ScopeValueView) -> Scopes {
        let top = self.stack.last().0 as int;
        Scopes {
            nodes: self.nodes.update(
                top,
                ScopeView {
                    value: self.nodes[top].value,
                    children: self.nodes[top].children.insert(name, self.next_ref()),
                },
            ).push(ScopeView { value, children: Map::empty() }),
            stack: self.stack,
        }
    }

    /// The graph after `name` was bound to `value`: the node that `name`
    /// resolves to is overwritten in place; a name that does not resolve gets a
    /// new node under the innermost active scope.
    pub open spec fn bind(self, name: Seq<char>, value: ScopeValueView) -> Scopes {
        match self.resolve(name) {
            Some(rf) => self.set_value(rf, value),
            None => self.declare(name, value),
        }
    }

    /// The value bound to `name`; there is none where the name does not
    /// resolve or resolves to something that is no value.
    pub open spec fn lookup(self, name: Seq<char>) -> Option<ValueView> {
        match self.resolve(name) {
            Some(rf) => match self.nodes[rf.0 as int].value {
                ScopeValueView::ConstValue(v) => Some(v),
                _ => None,
            },
            None => None,
        }
    }
}

/// The shapes of dotted path that a member assignment can follow.
pub enum MemberPath {
    /// `base.member`
    Direct { base: Seq<char>, member: Seq<char> },
    /// `base.first.member`
    Nested { base: Seq<char>, first: Seq<char>, member: Seq<char> },
}

/// The path that the two sides of a member access spell, for the two shapes
/// that are followed: a name on both sides, or on the left a dotted pair of
/// names and on the right a name.
pub open spec fn member_path(left: ExpressionView, right: ExpressionView) -> Option<MemberPath> {
    match (left, right) {
        (ExpressionView::Ident(base, _), ExpressionView::Ident(member, _)) => Some(
            MemberPath::Direct { base, member },
        ),
        (
            ExpressionView::BinaryExpression { left: inner_left, op: Operator::Dot, right: inner_right, .. },
            ExpressionView::Ident(member, _),
        ) => match (*inner_left, *inner_right) {
            (ExpressionView::Ident(base, _), ExpressionView::Ident(first, _)) => Some(
                MemberPath::Nested { base, first, member },
            ),
            _ => None,
        },
        _ => None,
    }
}

impl MemberPath {
    /// The name that the path starts from.
    pub open spec fn base(self) -> Seq<char> {
        match self {
            MemberPath::Direct { base, .. } => base,
            MemberPath::Nested { base, .. } => base,
        }
    }
}

impl Scopes {
    /// The value that the node `rf` binds, or the empty value where it binds
    /// none.
    pub open spec fn value_at(self, rf: ScopeRef) -> ValueView {
        match self.nodes[rf.0 as int].value {
            ScopeValueView::ConstValue(v) => v,
            _ => ValueView::empty(),
        }
    }

    /// The node that `base` resolves to, where that node binds a record
    /// instance.
    pub open spec fn record_at(self, base: Seq<char>) -> Option<ScopeRef> {
        match self.resolve(base) {
            Some(rf) => match self.nodes[rf.0 as int].value {
                ScopeValueView::ConstValue(v) => if v.is_record() {
                    Some(rf)
                } else {
                    None
                },
                _ => None,
            },
            None => None,
        }
    }

    /// The value of the record at the start of `path` after `value` was
    /// written at the end of the path. A member that is missing on the way
    /// leaves the record as it is.
    pub open spec fn written(record: ValueView, path: MemberPath, value: ValueView) -> ValueView {
        match path {
            MemberPath::Direct { member, .. } => record.with_member(member, value),
            MemberPath::Nested { first, member, .. } => match record.member(first) {
                Some(inner) => record.with_member(first, inner.with_member(member, value)),
                None => record,
            },
        }
    }

    /// Whether `path` leads from `record` to a member: the record has the
    /// first member of the path, and where the path goes on from there, that
    /// member is a record instance that has the last member.
    pub open spec fn leads_to_member(record: ValueView, path: MemberPath) -> bool {
        match path {
            MemberPath::Direct { member, .. } => record.has_member(member),
            MemberPath::Nested { first, member, .. } => record.is_record() && match record.member(
                first,
            ) {
                Some(inner) => inner.has_member(member),
                None => false,
            },
        }
    }

    /// Whether `path` resolves: it starts at a name that is bound to a record
    /// instance, and leads from there to a member.
    pub open spec fn path_resolves(self, path: MemberPath) -> bool {
        match self.record_at(path.base()) {
            Some(rf) => Scopes::leads_to_member(self.value_at(rf), path),
            None => false,
        }
    }

    /// The graph after `value` was written to the member that `path` leads
    /// to. Where the path does not resolve, nothing changes.
    pub open spec fn write(self, path: MemberPath, value: ValueView) -> Scopes {
        match self.record_at(path.base()) {
            Some(rf) if self.path_resolves(path) => self.set_value(
                rf,
                ScopeValueView::ConstValue(Scopes::written(self.value_at(rf), path, value)),
            ),
            _ => self,
        }
    }

    /// The graph after the assignment of `value` to the member access with the
    /// sides `left` and `right`. Where the access does not resolve, nothing
    /// changes.
    pub open spec fn follow_member_access(
        self,
        left: ExpressionView,
        right: ExpressionView,
        value: ValueView,
    ) -> Scopes {
        match member_path(left, right) {
            Some(path) => self.write(path, value),
            None => self,
        }
    }

    /// Whether the member access with the sides `left` and `right` resolves:
    /// it has one of the two shapes that are followed, starts at a name that
    /// is bound to a record instance, and every member on the way, the last
    /// one too, is there.
    pub open spec fn member_access_resolves(self, left: ExpressionView, right: ExpressionView) -> bool {
        match member_path(left, right) {
            Some(path) => self.path_resolves(path),
            None => false,
        }
    }
}

pub proof fn lemma_write_wf(s: Scopes, path: MemberPath, value: ValueView)
    requires
        s.wf(),
    ensures
        s.write(path, value).wf(),
        s.write(path, value).stack == s.stack,
        s.write(path, value).nodes.len() == s.nodes.len(),
{
    lemma_resolve_contained(s, path.base(), s.stack.len());
    match s.record_at(path.base()) {
        Some(rf) => {
            if s.path_resolves(path) {
                lemma_set_value_wf(
                    s,
                    rf,
                    ScopeValueView::ConstValue(Scopes::written(s.value_at(rf), path, value)),
                );
            }
        },
        None => {},
    }
}

/// A name that resolves leads to a node of the graph.
pub proof fn lemma_resolve_contained(s: Scopes, name: Seq<char>, depth: nat)
    requires
        s.wf(),
    ensures
        s.resolve_below(name, depth) matches Some(rf) ==> s.contains(rf),
    decreases depth,
{
    if depth != 0 && depth <= s.stack.len() {
        let frame = s.nodes[s.stack[depth - 1].0 as int];
        if !frame.children.contains_key(name) {
            lemma_resolve_contained(s, name, (depth - 1) as nat);
        }
    }
}

/// Resolution looks at the children of the searched scopes only.
pub proof fn lemma_resolve_same_frames(a: Scopes, b: Scopes, name: Seq<char>, depth: nat)
    requires
        a.wf(),
        depth <= a.stack.len(),
        depth <= b.stack.len(),
        forall|i: int| 0 <= i < depth ==> a.stack[i] == b.stack[i],
        forall|i: int|
            0 <= i < depth ==> b.contains(a.stack[i]) && b.nodes[a.stack[i].0 as int].children
                == a.nodes[a.stack[i].0 as int].children,
    ensures
        a.resolve_below(name, depth) == b.resolve_below(name, depth),
    decreases depth,
{
    if depth != 0 {
        lemma_resolve_same_frames(a, b, name, (depth - 1) as nat);
    }
}

pub proof fn lemma_set_value_wf(s: Scopes, rf: ScopeRef, value: ScopeValueView)
    requires
        s.wf(),
        s.contains(rf),
    ensures
        s.set_value(rf, value).wf(),
{
    let t = s.set_value(rf, value);
    assert forall|i: int, name: Seq<char>|
        0 <= i < t.nodes.len() && #[trigger] t.nodes[i].children.contains_key(name) implies t.contains(
        t.nodes[i].children[name],
    ) by {
        assert(s.nodes[i].children.contains_key(name));
    }
    assert forall|i: int| 0 <= i < t.stack.len() implies t.contains(#[trigger] t.stack[i]) by {
        assert(s.contains(s.stack[i]));
    }
}

pub proof fn lemma_declare_wf(s: Scopes, name: Seq<char>, value: ScopeValueView)
    requires
        s.wf(),
    ensures
        s.declare(name, value).wf(),
{
    let t = s.declare(name, value);
    let top = s.stack.last().0 as int;
    assert(s.contains(s.stack[s.stack.len() - 1]));
    assert forall|i: int, n: Seq<char>|
        0 <= i < t.nodes.len() && #[trigger] t.nodes[i].children.contains_key(n) implies t.contains(
        t.nodes[i].children[n],
    ) by {
        if i < s.nodes.len() {
            if i == top && n == name {
            } else {
                assert(s.nodes[i].children.contains_key(n));
            }
        }
    }
    assert forall|i: int| 0 <= i < t.stack.len() implies t.contains(#[trigger] t.stack[i]) by {
        assert(s.contains(s.stack[i]));
    }
}

pub proof fn lemma_bind_wf(s: Scopes, name: Seq<char>, value: ScopeValueView)
    requires
        s.wf(),
    ensures
        s.bind(name, value).wf(),
{
    lemma_resolve_contained(s, name, s.stack.len());
    match s.resolve(name) {
        Some(rf) => lemma_set_value_wf(s, rf, value),
        None => lemma_declare_wf(s, name, value),
    }
}

/// A name that was bound resolves, to the node it resolved to before or to
/// the node made for it, and that node holds the bound value.
pub proof fn lemma_bind_resolves(s: Scopes, name: Seq<char>, value: ScopeValueView)
    requires
        s.wf(),
        s.resolve(name) is None ==> s.nodes.len() <= usize::MAX,
    ensures
        s.bind(name, value).resolve(name) matches Some(bound) && bound == (match s.resolve(name) {
            Some(rf) => rf,
            None => s.next_ref(),
        }) && s.bind(name, value).nodes[bound.0 as int].value == value,
{
    let t = s.bind(name, value);
    lemma_resolve_contained(s, name, s.stack.len());
    match s.resolve(name) {
        Some(rf) => {
            assert forall|i: int| 0 <= i < s.stack.len() implies t.contains(s.stack[i])
                && t.nodes[s.stack[i].0 as int].children
                == s.nodes[s.stack[i].0 as int].children by {
                assert(s.contains(s.stack[i]));
            }
            lemma_resolve_same_frames(s, t, name, s.stack.len());
        },
        None => {
            assert(s.contains(s.stack[s.stack.len() - 1]));
        },
    }
}

/// The scope graph and the stack of active scopes.
pub struct ScopeManager {
    nodes: Vec<Scope>,
    current_scope: Vec<ScopeRef>,
}

impl View for ScopeManager {
    type V = Scopes;

    closed spec fn view(&self) -> Scopes {
        Scopes {
            nodes: Seq::new(self.nodes@.len(), |i: int| self.nodes@[i]@),
            stack: self.current_scope@,
        }
    }
}

impl ScopeManager {
    /// A manager over the graph that holds `module` alone, with `module` as
    /// the one active scope.
    ///
    /// The root has to come without children: a handle is a position in the
    /// graph of one manager, so a child of a root that is not yet in a graph
    /// could only lead back to the root itself, and that is all the
    /// precondition admits. A host that wants names in the root before a
    /// program runs builds the manager first and then binds them, with
    /// `update_value` or `insert_value`.
    pub fn new(module: Scope) -> (r: ScopeManager)
        requires
            Scopes::rooted(module@).wf(),
        ensures
            r@ == Scopes::rooted(module@),
            r@.wf(),
    {
        let mut nodes: Vec<Scope> = Vec::new();
        nodes.push(module);
        let mut current_scope: Vec<ScopeRef> = Vec::new();
        current_scope.push(ScopeRef(0));
        let r = ScopeManager { nodes, current_scope };
        assert(r@.nodes =~= Scopes::rooted(module@).nodes);
        assert(r@.stack =~= Scopes::rooted(module@).stack);
        r
    }

    /// The label under which a rendering shows the manager.
    pub fn label(&self) -> (r: &'static str)
        ensures
            r@ == "Scope Manager"@,
    {
        "Scope Manager"
    }

    /// The number of parts that a rendering shows below the label.
    pub fn num_children(&self) -> (r: usize)
        ensures
            r == 1,
    {
        1
    }

    /// The active scopes, the innermost last.
    pub fn active_scopes(&self) -> (r: &Vec<ScopeRef>)
        ensures
            r@ == self@.stack,
    {
        &self.current_scope
    }

    /// The handle of the root.
    pub fn root(&self) -> (r: ScopeRef)
        ensures
            r == ScopeRef(0),
    {
        ScopeRef(0)
    }

    /// Whether `rf` is a handle to a node of this graph.
    pub fn contains(&self, rf: ScopeRef) -> (r: bool)
        ensures
            r == self@.contains(rf),
    {
        rf.0 < self.nodes.len()
    }

    /// The node behind a handle.
    pub fn get(&self, rf: ScopeRef) -> (r: Option<&Scope>)
        ensures
            match r {
                Some(scope) => self@.contains(rf) && scope@ == self@.nodes[rf.0 as int],
                None => !self@.contains(rf),
            },
    {
        if rf.0 < self.nodes.len() {
            Some(&self.nodes[rf.0])
        } else {
            None
        }
    }

    /// The number of active scopes.
    pub fn depth(&self) -> (r: usize)
        ensures
            r == self@.stack.len(),
    {
        self.current_scope.len()
    }

    /// The number of nodes in the graph.
    pub fn len(&self) -> (r: usize)
        ensures
            r == self@.nodes.len(),
    {
        self.nodes.len()
    }

    /// Makes `rf` the innermost active scope.
    pub fn push_scope(&mut self, rf: ScopeRef)
        requires
            old(self)@.wf(),
            old(self)@.contains(rf),
        ensures
            final(self)@ == old(self)@.push(rf),
            final(self)@.wf(),
    {
        self.current_scope.push(rf);
        assert(self@.nodes =~= old(self)@.nodes);
    }

    /// Takes the innermost active scope off the stack and returns it. The
    /// node itself stays in the graph.
    pub fn pop_scope(&mut self) -> (r: ScopeRef)
        requires
            old(self)@.wf(),
            old(self)@.stack.len() > 1,
        ensures
            final(self)@ == old(self)@.pop(),
            final(self)@.wf(),
            r == old(self)@.stack.last(),
    {
        let r = match self.current_scope.pop() {
            Some(rf) => rf,
            None => ScopeRef(0),
        };
        assert(self@.nodes =~= old(self)@.nodes);
        assert(self@.stack =~= old(self)@.stack.drop_last());
        assert forall|i: int| 0 <= i < self@.stack.len() implies self@.contains(
            #[trigger] self@.stack[i],
        ) by {
            assert(old(self)@.contains(old(self)@.stack[i]));
        }
        r
    }

    /// Resolves `name`: searches the active scopes from the innermost to the
    /// outermost and returns the child of that name of the first scope that
    /// has one.
    pub fn find_symbol(&self, name: &str) -> (r: Option<ScopeRef>)
        requires
            self@.wf(),
        ensures
            r == self@.resolve(name@),
            r matches Some(rf) ==> self@.contains(rf),
    {
        let mut depth: usize = self.current_scope.len();
        while depth > 0
            invariant
                self@.wf(),
                depth <= self.current_scope@.len(),
                self@.resolve(name@) == self@.resolve_below(name@, depth as nat),
            decreases depth,
        {
            let frame = self.current_scope[depth - 1];
            assert(self@.contains(self@.stack[depth - 1]));
            match self.nodes[frame.0].children.get(name) {
                Some(rf) => {
                    proof {
                        lemma_resolve_contained(self@, name@, depth as nat);
                    }
                    return Some(*rf);
                },
                None => {},
            }
            depth -= 1;
        }
        None
    }

    /// Binds `name` to `value`. Where the name resolves, the node it resolves
    /// to is overwritten in place and its former value returned; otherwise a
    /// new node becomes the child `name` of the innermost active scope.
    pub fn update_value(&mut self, name: &str, value: ScopeValue) -> (r: Option<ScopeValue>)
        requires
            old(self)@.wf(),
        ensures
            final(self)@ == old(self)@.bind(name@, value@),
            final(self)@.wf(),
            final(self)@.stack == old(self)@.stack,
            final(self)@.nodes.len() >= old(self)@.nodes.len(),
            match r {
                Some(former) => old(self)@.resolve(name@) matches Some(rf) && former@ == old(
                    self,
                )@.nodes[rf.0 as int].value,
                None => old(self)@.resolve(name@) is None,
            },
    {
        match self.find_symbol(name) {
            Some(rf) => {
                let ghost bound = value@;
                let mut slot = value;
                let node = &mut self.nodes[rf.0];
                std::mem::swap(&mut node.value, &mut slot);
                proof {
                    assert(self@.nodes =~= old(self)@.bind(name@, bound).nodes);
                    lemma_bind_wf(old(self)@, name@, bound);
                }
                Some(slot)
            },
            None => {
                let rf = self.insert_value(name, value);
                None
            },
        }
    }

    /// Makes a new node that holds `value` the child `name` of the innermost
    /// active scope, whether or not the name resolves, and returns its handle.
    pub fn insert_value(&mut self, name: &str, value: ScopeValue) -> (r: ScopeRef)
        requires
            old(self)@.wf(),
        ensures
            final(self)@ == old(self)@.declare(name@, value@),
            final(self)@.wf(),
            final(self)@.stack == old(self)@.stack,
            final(self)@.nodes.len() == old(self)@.nodes.len() + 1,
            r == old(self)@.next_ref(),
            final(self)@.contains(r),
    {
        let rf = ScopeRef(self.nodes.len());
        let top = self.current_scope[self.current_scope.len() - 1];
        assert(self@.contains(self@.stack[self@.stack.len() - 1]));
        self.nodes.push(Scope::new(value));
        let count = self.nodes.len();
        assert(old(self)@.nodes.len() + 1 == count);
        let node = &mut self.nodes[top.0];
        node.children.insert(name.to_owned(), rf);
        proof {
            assert(self@.nodes =~= old(self)@.declare(name@, value@).nodes);
            lemma_declare_wf(old(self)@, name@, value@);
        }
        rf
    }

    /// The node that `base` resolves to, where that node binds a record
    /// instance.
    fn find_record(&self, base: &str) -> (r: Option<ScopeRef>)
        requires
            self@.wf(),
        ensures
            r == self@.record_at(base@),
            r matches Some(rf) ==> self@.contains(rf),
    {
        match self.find_symbol(base) {
            Some(rf) => match &self.nodes[rf.0].value {
                ScopeValue::ConstValue(v) => match (&v.ty, &v.kind) {
                    (Type::RecordInstance { .. }, ConstValueKind::RecordInstance { .. }) => Some(rf),
                    _ => None,
                },
                _ => None,
            },
            None => None,
        }
    }

    /// Assigns `value` to the member `right` of the record instance bound to
    /// `left`, in place, where both sides are names. Returns whether the
    /// assignment was made: whether `left` is bound to a record instance that
    /// has the member `right`. Where it was not made, nothing changes.
    pub fn fom(&mut self, left: &Expression, right: &Expression, value: ConstValue) -> (r: bool)
        requires
            old(self)@.wf(),
        ensures
            final(self)@.wf(),
            final(self)@.stack == old(self)@.stack,
            final(self)@.nodes.len() == old(self)@.nodes.len(),
            match (left@, right@) {
                (ExpressionView::Ident(base, _), ExpressionView::Ident(member, _)) => {
                    &&& r == old(self)@.path_resolves(MemberPath::Direct { base, member })
                    &&& final(self)@ == old(self)@.write(MemberPath::Direct { base, member }, value@)
                },
                _ => final(self)@ == old(self)@ && !r,
            },
            !r ==> final(self)@ == old(self)@,
    {
        match (left, right) {
            (Expression::Ident(base, _), Expression::Ident(member, _)) => {
                let ghost path = MemberPath::Direct { base: base@, member: member@ };
                proof {
                    lemma_write_wf(self@, path, value@);
                }
                match self.find_record(base.as_str()) {
                    Some(rf) => {
                        let node = &mut self.nodes[rf.0];
                        let done = match &mut node.value {
                            ScopeValue::ConstValue(record) => assign_member(record, member, value),
                            _ => false,
                        };
                        assert(self@.nodes =~= old(self)@.write(path, value@).nodes);
                        assert(!done ==> self@.nodes =~= old(self)@.nodes);
                        done
                    },
                    None => false,
                }
            },
            _ => false,
        }
    }

    /// Assigns `value` to the end of a dotted path, in place. Two shapes of
    /// path are followed: a name on both sides, and on the left a dotted pair
    /// of names with a name on the right. Returns whether the assignment was
    /// made: whether the path has one of these shapes, starts at a name that
    /// is bound to a record instance, and every member on the way, the last
    /// one too, is there. Where it was not made, nothing changes.
    pub fn follow_member_access_mut(
        &mut self,
        left: &Expression,
        right: &Expression,
        value: ConstValue,
    ) -> (r: bool)
        requires
            old(self)@.wf(),
        ensures
            final(self)@.wf(),
            final(self)@.stack == old(self)@.stack,
            final(self)@.nodes.len() == old(self)@.nodes.len(),
            final(self)@ == old(self)@.follow_member_access(left@, right@, value@),
            r == old(self)@.member_access_resolves(left@, right@),
            !r ==> final(self)@ == old(self)@,
    {
        reveal_with_fuel(crate::ast::expression_view, 2);
        match (left, right) {
            (Expression::Ident(_, _), Expression::Ident(_, _)) => self.fom(left, right, value),
            (
                Expression::BinaryExpression { left: inner_left, op: Operator::Dot, right: inner_right, .. },
                Expression::Ident(member, _),
            ) => match (&**inner_left, &**inner_right) {
                (Expression::Ident(base, _), Expression::Ident(first, _)) => {
                    let ghost path = MemberPath::Nested {
                        base: base@,
                        first: first@,
                        member: member@,
                    };
                    proof {
                        lemma_write_wf(self@, path, value@);
                    }
                    match self.find_record(base.as_str()) {
                        Some(rf) => {
                            let node = &mut self.nodes[rf.0];
                            let done = match &mut node.value {
                                ScopeValue::ConstValue(record) => assign_nested(
                                    record,
                                    first,
                                    member,
                                    value,
                                ),
                                _ => false,
                            };
                            assert(self@.nodes =~= old(self)@.write(path, value@).nodes);
                            assert(!done ==> self@.nodes =~= old(self)@.nodes);
                            done
                        },
                        None => false,
                    }
                },
                _ => false,
            },
            _ => false,
        }
    }
}

/// Replaces, in place, the member `member` of the member `first` of a record
/// instance, and returns whether both members were there.
fn assign_nested(record: &mut ConstValue, first: &String, member: &String, value: ConstValue) -> (r:
    bool)
    requires
        old(record)@.is_record(),
    ensures
        r == Scopes::leads_to_member(
            old(record)@,
            MemberPath::Nested { base: Seq::empty(), first: first@, member: member@ },
        ),
        r ==> final(record)@ == Scopes::written(
            old(record)@,
            MemberPath::Nested { base: Seq::empty(), first: first@, member: member@ },
            value@,
        ),
        !r ==> final(record)@ == old(record)@,
{
    match &mut record.kind {
        ConstValueKind::RecordInstance { members } => {
            match find_member(members, first) {
                Some(i) => {
                    let ghost before = members@;
                    let slot = &mut members[i];
                    let done = assign_member(&mut slot.1, member, value);
                    assert(crate::const_value::value_fields_view(members@)
                        =~= crate::const_value::value_fields_view(before).update(
                        i as int,
                        (
                            crate::const_value::value_fields_view(before)[i as int].0,
                            before[i as int].1@.with_member(member@, value@),
                        ),
                    ));
                    assert(!done ==> crate::const_value::value_fields_view(members@)
                        =~= crate::const_value::value_fields_view(before));
                    done
                },
                None => false,
            }
        },
        _ => false,
    }
}

} // verus!
