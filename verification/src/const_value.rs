//! Types and values of the language, and their mathematical views.

use vstd::prelude::*;
use linked_hash_map::LinkedHashMap;
use crate::ast::{Statement, StatementView};
use crate::linked::{
    named_types_view, named_values_view, type_entries, type_map_into_vec, value_entries,
    value_map_into_vec,
};
use crate::scope::ScopeRef;

verus! {

/// The type of a value.
#[derive(Debug, PartialEq, Eq)]
pub enum Type {
    Empty,
    /// An integer literal that has not met a sized operand yet.
    CoercibleInteger,
    /// A float literal that has not met a sized operand yet.
    CoercibleFloat,
    Integer { width: u8, signed: bool },
    Float { width: u8 },
    Function { parameters: Vec<(String, Type)>, return_parameters: Vec<(String, Type)> },
    RecordInstance { members: Vec<(String, Type)> },
    /// A reference to a declaration in the scope graph.
    Symbol(ScopeRef),
}

/// A type as mathematics: named types are a sequence of pairs, in their
/// order.
pub enum TypeView {
    Empty,
    CoercibleInteger,
    CoercibleFloat,
    Integer { width: u8, signed: bool },
    Float { width: u8 },
    Function {
        parameters: Seq<(Seq<char>, TypeView)>,
        return_parameters: Seq<(Seq<char>, TypeView)>,
    },
    RecordInstance { members: Seq<(Seq<char>, TypeView)> },
    Symbol(ScopeRef),
}

pub open spec fn type_view(t: Type) -> TypeView
    decreases t,
{
    match t {
        Type::Empty => TypeView::Empty,
        Type::CoercibleInteger => TypeView::CoercibleInteger,
        Type::CoercibleFloat => TypeView::CoercibleFloat,
        Type::Integer { width, signed } => TypeView::Integer { width, signed },
        Type::Float { width } => TypeView::Float { width },
        Type::Function { parameters, return_parameters } => TypeView::Function {
            parameters: type_fields_view(parameters@),
            return_parameters: type_fields_view(return_parameters@),
        },
        Type::RecordInstance { members } => TypeView::RecordInstance {
            members: type_fields_view(members@),
        },
        Type::Symbol(rf) => TypeView::Symbol(rf),
    }
}

/// The view of an ordered run of named types.
pub open spec fn type_fields_view(fs: Seq<(String, Type)>) -> Seq<(Seq<char>, TypeView)>
    decreases fs,
{
    Seq::new(
        fs.len(),
        |i: int|
            if 0 <= i < fs.len() {
                (fs[i].0@, type_view(fs[i].1))
            } else {
                arbitrary()
            },
    )
}

impl View for Type {
    type V = TypeView;

    open spec fn view(&self) -> TypeView {
        type_view(*self)
    }
}

/// The payload of a value.
#[derive(Debug, PartialEq, Eq)]
pub enum ConstValueKind {
    Empty,
    Integer { value: u64 },
    /// A float, carried as the bits of its double-precision form.
    Float { bits: u64 },
    Function { body: Statement, rf: ScopeRef },
    RecordInstance { members: Vec<(String, ConstValue)> },
}

/// A value of the language: a type and a payload.
#[derive(Debug, PartialEq, Eq)]
pub struct ConstValue {
    pub ty: Type,
    pub kind: ConstValueKind,
}

/// A payload as mathematics.
pub enum KindView {
    Empty,
    Integer { value: u64 },
    Float { bits: u64 },
    Function { body: StatementView, rf: ScopeRef },
    RecordInstance { members: Seq<(Seq<char>, ValueView)> },
}

/// A value as mathematics: the views of its type and of its payload.
pub struct ValueView {
    pub ty: TypeView,
    pub kind: KindView,
}

pub open spec fn kind_view(k: ConstValueKind) -> KindView
    decreases k,
{
    match k {
        ConstValueKind::Empty => KindView::Empty,
        ConstValueKind::Integer { value } => KindView::Integer { value },
        ConstValueKind::Float { bits } => KindView::Float { bits },
        ConstValueKind::Function { body, rf } => KindView::Function { body: body@, rf },
        ConstValueKind::RecordInstance { members } => KindView::RecordInstance {
            members: value_fields_view(members@),
        },
    }
}

pub open spec fn value_view(v: ConstValue) -> ValueView
    decreases v,
{
    ValueView { ty: v.ty@, kind: kind_view(v.kind) }
}

/// The view of an ordered run of named values.
pub open spec fn value_fields_view(ms: Seq<(String, ConstValue)>) -> Seq<(Seq<char>, ValueView)>
    decreases ms,
{
    Seq::new(
        ms.len(),
        |i: int|
            if 0 <= i < ms.len() {
                (ms[i].0@, value_view(ms[i].1))
            } else {
                arbitrary()
            },
    )
}

impl View for ConstValueKind {
    type V = KindView;

    open spec fn view(&self) -> KindView {
        kind_view(*self)
    }
}

impl View for ConstValue {
    type V = ValueView;

    open spec fn view(&self) -> ValueView {
        value_view(*self)
    }
}

/// The position of the first entry named `name`, if there is one.
pub open spec fn field_index<T>(fields: Seq<(Seq<char>, T)>, name: Seq<char>) -> Option<int>
    decreases fields.len(),
{
    if fields.len() == 0 {
        None
    } else if fields[0].0 == name {
        Some(0)
    } else {
        match field_index(fields.skip(1), name) {
            Some(i) => Some(i + 1),
            None => None,
        }
    }
}

pub proof fn lemma_field_index<T>(fields: Seq<(Seq<char>, T)>, name: Seq<char>)
    ensures
        match field_index(fields, name) {
            Some(i) => 0 <= i < fields.len() && fields[i].0 == name && forall|j: int|
                0 <= j < i ==> fields[j].0 != name,
            None => forall|j: int| 0 <= j < fields.len() ==> fields[j].0 != name,
        },
    decreases fields.len(),
{
    if fields.len() > 0 && fields[0].0 != name {
        let rest = fields.skip(1);
        lemma_field_index(rest, name);
        match field_index(rest, name) {
            Some(i) => {
                assert forall|j: int| 0 <= j < i + 1 implies fields[j].0 != name by {
                    if j > 0 {
                        assert(rest[j - 1].0 != name);
                    }
                }
            },
            None => {
                assert forall|j: int| 0 <= j < fields.len() implies fields[j].0 != name by {
                    if j > 0 {
                        assert(rest[j - 1].0 != name);
                    }
                }
            },
        }
    }
}

/// Whether no name occurs twice in a run of named things.
pub open spec fn distinct_names<T>(fields: Seq<(Seq<char>, T)>) -> bool {
    forall|i: int, j: int| 0 <= i < j < fields.len() ==> fields[i].0 != fields[j].0
}

impl TypeView {
    /// Whether the type is one that maps from names can have given: among
    /// the parameters of a function, among its return parameters and among
    /// the members of a record no name occurs twice, at every depth.
    pub open spec fn wf(self) -> bool
        decreases self,
    {
        match self {
            TypeView::Function { parameters, return_parameters } => {
                &&& distinct_names(parameters)
                &&& distinct_names(return_parameters)
                &&& forall|i: int|
                    0 <= i < parameters.len() ==> (#[trigger] parameters[i]).1.wf()
                &&& forall|i: int|
                    0 <= i < return_parameters.len() ==> (#[trigger] return_parameters[i]).1.wf()
            },
            TypeView::RecordInstance { members } => {
                &&& distinct_names(members)
                &&& forall|i: int| 0 <= i < members.len() ==> (#[trigger] members[i]).1.wf()
            },
            _ => true,
        }
    }
}

impl ValueView {
    /// Whether the value is one that maps from names can have given: its
    /// type is, and among the members of a record instance no name occurs
    /// twice, at every depth. A name then finds at most one member.
    pub open spec fn wf(self) -> bool
        decreases self,
    {
        &&& self.ty.wf()
        &&& match self.kind {
            KindView::RecordInstance { members } => {
                &&& distinct_names(members)
                &&& forall|i: int| 0 <= i < members.len() ==> (#[trigger] members[i]).1.wf()
            },
            _ => true,
        }
    }
}

/// Whether every type of a run of named types is well-formed.
pub open spec fn all_types_wf(fields: Seq<(Seq<char>, TypeView)>) -> bool {
    forall|i: int| 0 <= i < fields.len() ==> (#[trigger] fields[i]).1.wf()
}

/// Whether every value of a run of named values is well-formed.
pub open spec fn all_wf(members: Seq<(Seq<char>, ValueView)>) -> bool {
    forall|i: int| 0 <= i < members.len() ==> (#[trigger] members[i]).1.wf()
}

/// A record instance of well-formed members under distinct names is
/// well-formed.
pub proof fn lemma_record_instance_wf(members: Seq<(Seq<char>, ValueView)>)
    requires
        distinct_names(members),
        all_wf(members),
    ensures
        ValueView::record_instance(members).wf(),
{
    let types = member_types(members);
    assert forall|i: int| 0 <= i < types.len() implies (#[trigger] types[i]).1.wf() by {
        assert(members[i].1.wf());
    }
    assert forall|i: int, j: int| 0 <= i < j < types.len() implies types[i].0 != types[j].0 by {
        assert(members[i].0 != members[j].0);
    }
}

/// In a run without a name twice, a name is found where it stands.
pub proof fn lemma_distinct_index<T>(fields: Seq<(Seq<char>, T)>, i: int)
    requires
        distinct_names(fields),
        0 <= i < fields.len(),
    ensures
        field_index(fields, fields[i].0) == Some(i),
{
    lemma_field_index(fields, fields[i].0);
}

/// A decimal numeral has a digit, and two or more from ten on.
pub proof fn lemma_decimal_len(n: nat)
    ensures
        decimal(n).len() >= 1,
        n >= 10 ==> decimal(n).len() >= 2,
    decreases n,
{
    if n >= 10 {
        lemma_decimal_len(n / 10);
    }
}

/// Two numbers with the same decimal numeral are the same number.
pub proof fn lemma_decimal_injective(a: nat, b: nat)
    requires
        decimal(a) == decimal(b),
    ensures
        a == b,
    decreases a,
{
    lemma_decimal_len(a);
    lemma_decimal_len(b);
    if a < 10 && b < 10 {
        assert(decimal(a)[0] == digit(a));
        assert(decimal(b)[0] == digit(b));
    } else if a < 10 || b < 10 {
        assert(decimal(a).len() != decimal(b).len());
    } else {
        let da = decimal(a / 10);
        let db = decimal(b / 10);
        assert(decimal(a) == da.push(digit(a % 10)));
        assert(decimal(b) == db.push(digit(b % 10)));
        assert(da =~= decimal(a).drop_last());
        assert(db =~= decimal(b).drop_last());
        assert(digit(a % 10) == decimal(a).last());
        assert(digit(b % 10) == decimal(b).last());
        lemma_decimal_injective(a / 10, b / 10);
    }
}

/// The types of an ordered run of named values, under the same names.
pub open spec fn member_types(members: Seq<(Seq<char>, ValueView)>) -> Seq<(Seq<char>, TypeView)> {
    Seq::new(members.len(), |i: int| (members[i].0, members[i].1.ty))
}

impl TypeView {
    /// The value that stands for a name of this type that was never bound.
    pub open spec fn default_value(self) -> ValueView
        decreases self,
    {
        match self {
            TypeView::Empty => ValueView::empty(),
            TypeView::CoercibleInteger => ValueView::cinteger(0),
            TypeView::CoercibleFloat => ValueView::cfloat(0),
            TypeView::Integer { width, signed } => ValueView::integer(0, width, signed),
            TypeView::Float { width } => ValueView::float(0, width),
            TypeView::Function { .. } => ValueView::empty(),
            TypeView::RecordInstance { members } => ValueView::record_instance(
                default_fields(members),
            ),
            TypeView::Symbol(_) => ValueView::empty(),
        }
    }
}

/// The default values of an ordered run of named types, under the same names.
pub open spec fn default_fields(members: Seq<(Seq<char>, TypeView)>) -> Seq<(Seq<char>, ValueView)>
    decreases members,
{
    Seq::new(
        members.len(),
        |i: int|
            if 0 <= i < members.len() {
                (members[i].0, members[i].1.default_value())
            } else {
                arbitrary()
            },
    )
}

impl ValueView {
    pub open spec fn empty() -> ValueView {
        ValueView { ty: TypeView::Empty, kind: KindView::Empty }
    }

    pub open spec fn cinteger(value: u64) -> ValueView {
        ValueView { ty: TypeView::CoercibleInteger, kind: KindView::Integer { value } }
    }

    pub open spec fn cfloat(bits: u64) -> ValueView {
        ValueView { ty: TypeView::CoercibleFloat, kind: KindView::Float { bits } }
    }

    pub open spec fn integer(value: u64, width: u8, signed: bool) -> ValueView {
        ValueView { ty: TypeView::Integer { width, signed }, kind: KindView::Integer { value } }
    }

    pub open spec fn float(bits: u64, width: u8) -> ValueView {
        ValueView { ty: TypeView::Float { width }, kind: KindView::Float { bits } }
    }

    pub open spec fn func(
        body: StatementView,
        parameters: Seq<(Seq<char>, TypeView)>,
        return_parameters: Seq<(Seq<char>, TypeView)>,
        rf: ScopeRef,
    ) -> ValueView {
        ValueView {
            ty: TypeView::Function { parameters, return_parameters },
            kind: KindView::Function { body, rf },
        }
    }

    /// A record instance: its type lists the members' types under their names.
    pub open spec fn record_instance(members: Seq<(Seq<char>, ValueView)>) -> ValueView {
        ValueView {
            ty: TypeView::RecordInstance { members: member_types(members) },
            kind: KindView::RecordInstance { members },
        }
    }

    /// A tuple: a record instance whose members are named by their positions,
    /// written in decimal.
    pub open spec fn tuple(values: Seq<ValueView>) -> ValueView {
        ValueView::record_instance(
            Seq::new(values.len(), |i: int| (decimal(i as nat), values[i])),
        )
    }

    /// Whether both the type and the payload are those of a record instance.
    pub open spec fn is_record(self) -> bool {
        self.ty is RecordInstance && self.kind is RecordInstance
    }

    /// The member `name` of a record payload.
    pub open spec fn member(self, name: Seq<char>) -> Option<ValueView> {
        match self.kind {
            KindView::RecordInstance { members } => match field_index(members, name) {
                Some(i) => Some(members[i].1),
                None => None,
            },
            _ => None,
        }
    }

    /// Whether this is a record instance that has a member `name`.
    pub open spec fn has_member(self, name: Seq<char>) -> bool {
        self.is_record() && self.member(name) is Some
    }

    /// The value with its member `name` replaced by `value`. A value that is
    /// no record instance, or has no such member, stays as it is.
    pub open spec fn with_member(self, name: Seq<char>, value: ValueView) -> ValueView {
        match self.kind {
            KindView::RecordInstance { members } => match field_index(members, name) {
                Some(i) if self.is_record() => ValueView {
                    ty: self.ty,
                    kind: KindView::RecordInstance {
                        members: members.update(i, (members[i].0, value)),
                    },
                },
                _ => self,
            },
            _ => self,
        }
    }
}

/// The decimal digit for a number below ten.
pub open spec fn digit(d: nat) -> char {
    if d == 0 {
        '0'
    } else if d == 1 {
        '1'
    } else if d == 2 {
        '2'
    } else if d == 3 {
        '3'
    } else if d == 4 {
        '4'
    } else if d == 5 {
        '5'
    } else if d == 6 {
        '6'
    } else if d == 7 {
        '7'
    } else if d == 8 {
        '8'
    } else {
        '9'
    }
}

/// A number written in decimal, without sign or leading zeros.
pub open spec fn decimal(n: nat) -> Seq<char>
    decreases n,
{
    if n < 10 {
        seq![digit(n)]
    } else {
        decimal(n / 10).push(digit(n % 10))
    }
}

/// The views of a run of values.
pub open spec fn values_view(values: Seq<ConstValue>) -> Seq<ValueView> {
    Seq::new(values.len(), |i: int| values[i]@)
}

/// `ToString::to_string` on a `usize`: the number written in decimal, without
/// sign or leading zeros.
#[verifier::external_body]
fn index_name(i: usize) -> (r: String)
    ensures
        r@ == decimal(i as nat),
{
    i.to_string()
}

/// The position of the first member named `name`.
pub fn find_member(members: &Vec<(String, ConstValue)>, name: &String) -> (r: Option<usize>)
    ensures
        match r {
            Some(i) => field_index(value_fields_view(members@), name@) == Some(i as int) && i
                < members@.len(),
            None => field_index(value_fields_view(members@), name@) is None,
        },
{
    let ghost fields = value_fields_view(members@);
    let mut i: usize = 0;
    while i < members.len()
        invariant
            i <= members.len(),
            fields == value_fields_view(members@),
            forall|j: int| 0 <= j < i ==> fields[j].0 != name@,
        decreases members.len() - i,
    {
        if members[i].0 == *name {
            proof {
                lemma_field_index(fields, name@);
                assert(fields[i as int].0 == name@);
            }
            return Some(i);
        }
        i += 1;
    }
    proof {
        lemma_field_index(fields, name@);
    }
    None
}

/// Replacing a member of a well-formed value by a well-formed value leaves
/// it well-formed.
pub proof fn lemma_with_member_wf(record: ValueView, name: Seq<char>, value: ValueView)
    requires
        record.wf(),
        value.wf(),
    ensures
        record.with_member(name, value).wf(),
{
    match record.kind {
        KindView::RecordInstance { members } => {
            lemma_field_index(members, name);
            match field_index(members, name) {
                Some(i) => {
                    let updated = members.update(i, (members[i].0, value));
                    assert forall|k: int| 0 <= k < updated.len() implies (#[trigger] updated[k]).1.wf() by {
                        if k != i {
                            assert(members[k].1.wf());
                        }
                    }
                    assert forall|k: int, j: int| 0 <= k < j < updated.len() implies updated[k].0
                        != updated[j].0 by {
                        assert(members[k].0 != members[j].0);
                    }
                },
                None => {},
            }
        },
        _ => {},
    }
}

/// Whether no name occurs twice among `members`.
pub fn has_distinct_names(members: &Vec<(String, ConstValue)>) -> (r: bool)
    ensures
        r == distinct_names(value_fields_view(members@)),
{
    let ghost fields = value_fields_view(members@);
    let mut i: usize = 0;
    while i < members.len()
        invariant
            i <= members.len(),
            fields == value_fields_view(members@),
            forall|k: int| 0 <= k < i ==> field_index(fields, (#[trigger] fields[k]).0) == Some(k),
        decreases members.len() - i,
    {
        proof {
            lemma_field_index(fields, fields[i as int].0);
        }
        let first = find_member(members, &members[i].0);
        match first {
            Some(k) => {
                if k != i {
                    assert(fields[k as int].0 == fields[i as int].0);
                    return false;
                }
            },
            None => {
                return false;
            },
        }
        i += 1;
    }
    assert forall|a: int, b: int| 0 <= a < b < fields.len() implies fields[a].0 != fields[b].0 by {
        lemma_field_index(fields, fields[b].0);
    }
    true
}

/// Replaces the member `name` of a record instance in place, and returns
/// whether there was such a member. A value that is no record instance, or
/// has no such member, stays as it is.
pub fn assign_member(record: &mut ConstValue, name: &String, value: ConstValue) -> (r: bool)
    ensures
        r == old(record)@.has_member(name@),
        final(record)@ == old(record)@.with_member(name@, value@),
        !r ==> final(record)@ == old(record)@,
        old(record)@.wf() && value@.wf() ==> final(record)@.wf(),
{
    proof {
        if record@.wf() && value@.wf() {
            lemma_with_member_wf(record@, name@, value@);
        }
    }
    let is_instance = match &record.ty {
        Type::RecordInstance { .. } => true,
        _ => false,
    };
    if !is_instance {
        return false;
    }
    match &mut record.kind {
        ConstValueKind::RecordInstance { members } => {
            match find_member(members, name) {
                Some(i) => {
                    let ghost before = members@;
                    let slot = &mut members[i];
                    slot.1 = value;
                    assert(value_fields_view(members@) =~= value_fields_view(before).update(
                        i as int,
                        (value_fields_view(before)[i as int].0, value@),
                    ));
                    true
                },
                None => false,
            }
        },
        _ => false,
    }
}

impl Clone for Type {
    fn clone(&self) -> (r: Self)
        ensures
            r@ == self@,
        decreases self,
    {
        match self {
            Type::Empty => Type::Empty,
            Type::CoercibleInteger => Type::CoercibleInteger,
            Type::CoercibleFloat => Type::CoercibleFloat,
            Type::Integer { width, signed } => Type::Integer { width: *width, signed: *signed },
            Type::Float { width } => Type::Float { width: *width },
            Type::Function { parameters, return_parameters } => Type::Function {
                parameters: clone_type_fields(parameters),
                return_parameters: clone_type_fields(return_parameters),
            },
            Type::RecordInstance { members } => Type::RecordInstance {
                members: clone_type_fields(members),
            },
            Type::Symbol(rf) => Type::Symbol(*rf),
        }
    }
}

pub fn clone_type_fields(fs: &Vec<(String, Type)>) -> (r: Vec<(String, Type)>)
    ensures
        type_fields_view(r@) == type_fields_view(fs@),
    decreases fs,
{
    let mut out: Vec<(String, Type)> = Vec::new();
    let mut i: usize = 0;
    while i < fs.len()
        invariant
            i <= fs.len(),
            out@.len() == i,
            forall|j: int| 0 <= j < i ==> out@[j].0@ == fs@[j].0@ && out@[j].1@ == fs@[j].1@,
        decreases fs.len() - i,
    {
        let name = fs[i].0.clone();
        let ty = fs[i].1.clone();
        out.push((name, ty));
        i += 1;
    }
    assert(type_fields_view(out@) =~= type_fields_view(fs@));
    out
}

impl Type {
    /// Whether two types are exactly the same.
    pub fn equals(&self, other: &Type) -> (r: bool)
        ensures
            r == (self@ == other@),
        decreases self,
    {
        match (self, other) {
            (Type::Empty, Type::Empty) => true,
            (Type::CoercibleInteger, Type::CoercibleInteger) => true,
            (Type::CoercibleFloat, Type::CoercibleFloat) => true,
            (Type::Integer { width: w1, signed: s1 }, Type::Integer { width: w2, signed: s2 }) => {
                *w1 == *w2 && *s1 == *s2
            },
            (Type::Float { width: w1 }, Type::Float { width: w2 }) => *w1 == *w2,
            (
                Type::Function { parameters: mine, return_parameters: my_returns },
                Type::Function { parameters: theirs, return_parameters: their_returns },
            ) => type_fields_equal(mine, theirs) && type_fields_equal(my_returns, their_returns),
            (Type::RecordInstance { members: m1 }, Type::RecordInstance { members: m2 }) => {
                type_fields_equal(m1, m2)
            },
            (Type::Symbol(a), Type::Symbol(b)) => a.0 == b.0,
            _ => false,
        }
    }
}

pub fn type_fields_equal(a: &Vec<(String, Type)>, b: &Vec<(String, Type)>) -> (r: bool)
    ensures
        r == (type_fields_view(a@) == type_fields_view(b@)),
    decreases a,
{
    if a.len() != b.len() {
        assert(type_fields_view(a@).len() != type_fields_view(b@).len());
        return false;
    }
    let mut i: usize = 0;
    while i < a.len()
        invariant
            i <= a.len(),
            a.len() == b.len(),
            forall|j: int| 0 <= j < i ==> a@[j].0@ == b@[j].0@ && a@[j].1@ == b@[j].1@,
        decreases a.len() - i,
    {
        let same_name = a[i].0 == b[i].0;
        if !same_name || !a[i].1.equals(&b[i].1) {
            assert(type_fields_view(a@)[i as int] != type_fields_view(b@)[i as int]);
            return false;
        }
        i += 1;
    }
    assert(type_fields_view(a@) =~= type_fields_view(b@));
    true
}

impl ConstValueKind {
    /// The raw bits of an integer payload.
    pub fn as_integer(&self) -> (r: Option<u64>)
        ensures
            r == match self@ {
                KindView::Integer { value } => Some(value),
                _ => None,
            },
    {
        match self {
            ConstValueKind::Integer { value } => Some(*value),
            _ => None,
        }
    }

    /// The raw bits of a float payload.
    pub fn as_float(&self) -> (r: Option<u64>)
        ensures
            r == match self@ {
                KindView::Float { bits } => Some(bits),
                _ => None,
            },
    {
        match self {
            ConstValueKind::Float { bits } => Some(*bits),
            _ => None,
        }
    }
}

impl Clone for ConstValueKind {
    fn clone(&self) -> (r: Self)
        ensures
            r@ == self@,
        decreases self,
    {
        match self {
            ConstValueKind::Empty => ConstValueKind::Empty,
            ConstValueKind::Integer { value } => ConstValueKind::Integer { value: *value },
            ConstValueKind::Float { bits } => ConstValueKind::Float { bits: *bits },
            ConstValueKind::Function { body, rf } => ConstValueKind::Function {
                body: body.clone(),
                rf: *rf,
            },
            ConstValueKind::RecordInstance { members } => ConstValueKind::RecordInstance {
                members: clone_value_fields(members),
            },
        }
    }
}

impl Clone for ConstValue {
    fn clone(&self) -> (r: Self)
        ensures
            r@ == self@,
        decreases self,
    {
        ConstValue { ty: self.ty.clone(), kind: self.kind.clone() }
    }
}

pub fn clone_value_fields(ms: &Vec<(String, ConstValue)>) -> (r: Vec<(String, ConstValue)>)
    ensures
        value_fields_view(r@) == value_fields_view(ms@),
    decreases ms,
{
    let mut out: Vec<(String, ConstValue)> = Vec::new();
    let mut i: usize = 0;
    while i < ms.len()
        invariant
            i <= ms.len(),
            out@.len() == i,
            forall|j: int| 0 <= j < i ==> out@[j].0@ == ms@[j].0@ && out@[j].1@ == ms@[j].1@,
        decreases ms.len() - i,
    {
        let name = ms[i].0.clone();
        let value = ms[i].1.clone();
        out.push((name, value));
        i += 1;
    }
    assert(value_fields_view(out@) =~= value_fields_view(ms@));
    out
}

impl ConstValue {
    /// Whether this is the value that carries nothing.
    pub fn is_empty(&self) -> (r: bool)
        ensures
            r == (self@ == ValueView::empty()),
    {
        let no_type = match &self.ty {
            Type::Empty => true,
            _ => false,
        };
        let no_payload = match &self.kind {
            ConstValueKind::Empty => true,
            _ => false,
        };
        no_type && no_payload
    }

    /// The number of named parts that a rendering of the value shows: the
    /// members of a record instance, and none of anything else.
    pub fn num_children(&self) -> (r: usize)
        ensures
            r == match self@.kind {
                KindView::RecordInstance { members } => members.len(),
                _ => 0,
            },
    {
        match &self.kind {
            ConstValueKind::RecordInstance { members } => members.len(),
            _ => 0,
        }
    }

    /// The value that carries nothing.
    pub fn empty() -> (r: ConstValue)
        ensures
            r@ == ValueView::empty(),
            r@.wf(),
    {
        ConstValue { ty: Type::Empty, kind: ConstValueKind::Empty }
    }

    /// An integer literal.
    pub fn cinteger(value: u64) -> (r: ConstValue)
        ensures
            r@ == ValueView::cinteger(value),
            r@.wf(),
    {
        ConstValue { ty: Type::CoercibleInteger, kind: ConstValueKind::Integer { value } }
    }

    /// A float literal, from the bits of its double-precision form.
    pub fn cfloat(bits: u64) -> (r: ConstValue)
        ensures
            r@ == ValueView::cfloat(bits),
            r@.wf(),
    {
        ConstValue { ty: Type::CoercibleFloat, kind: ConstValueKind::Float { bits } }
    }

    /// An integer of a given width and signedness.
    pub fn integer(value: u64, width: u8, signed: bool) -> (r: ConstValue)
        ensures
            r@ == ValueView::integer(value, width, signed),
            r@.wf(),
    {
        ConstValue { ty: Type::Integer { width, signed }, kind: ConstValueKind::Integer { value } }
    }

    /// A float of a given width, from the bits of its double-precision form.
    pub fn float(bits: u64, width: u8) -> (r: ConstValue)
        ensures
            r@ == ValueView::float(bits, width),
            r@.wf(),
    {
        ConstValue { ty: Type::Float { width }, kind: ConstValueKind::Float { bits } }
    }

    /// A record instance with the given members, in their order; none where
    /// a name occurs twice among them.
    pub fn from_members(members: Vec<(String, ConstValue)>) -> (r: Option<ConstValue>)
        ensures
            match r {
                Some(v) => {
                    &&& distinct_names(value_fields_view(members@))
                    &&& v@ == ValueView::record_instance(value_fields_view(members@))
                    &&& all_wf(value_fields_view(members@)) ==> v@.wf()
                },
                None => !distinct_names(value_fields_view(members@)),
            },
    {
        if has_distinct_names(&members) {
            Some(instance_of(members))
        } else {
            None
        }
    }

    /// A function value: its signature, its body, and the scope that its
    /// calls run in.
    pub fn func(
        body: Statement,
        parameters: LinkedHashMap<String, Type>,
        return_parameters: LinkedHashMap<String, Type>,
        rf: ScopeRef,
    ) -> (r: ConstValue)
        ensures
            r@ == ValueView::func(
                body@,
                named_types_view(type_entries(parameters)),
                named_types_view(type_entries(return_parameters)),
                rf,
            ),
            all_types_wf(named_types_view(type_entries(parameters))) && all_types_wf(
                named_types_view(type_entries(return_parameters)),
            ) ==> r@.wf(),
    {
        let ps = type_map_into_vec(parameters);
        let rs = type_map_into_vec(return_parameters);
        assert(type_fields_view(ps@) =~= named_types_view(type_entries(parameters)));
        assert(type_fields_view(rs@) =~= named_types_view(type_entries(return_parameters)));
        assert(distinct_names(type_fields_view(ps@))) by {
            assert forall|i: int, j: int| 0 <= i < j < ps@.len() implies type_fields_view(
                ps@,
            )[i].0 != type_fields_view(ps@)[j].0 by {
                assert(ps@[i].0@ != ps@[j].0@);
            }
        }
        assert(distinct_names(type_fields_view(rs@))) by {
            assert forall|i: int, j: int| 0 <= i < j < rs@.len() implies type_fields_view(
                rs@,
            )[i].0 != type_fields_view(rs@)[j].0 by {
                assert(rs@[i].0@ != rs@[j].0@);
            }
        }
        ConstValue {
            ty: Type::Function { parameters: ps, return_parameters: rs },
            kind: ConstValueKind::Function { body, rf },
        }
    }

    /// A record instance with the members of `members`, in the map's order.
    pub fn record_instance(members: LinkedHashMap<String, ConstValue>) -> (r: ConstValue)
        ensures
            r@ == ValueView::record_instance(named_values_view(value_entries(members))),
            distinct_names(named_values_view(value_entries(members))),
            all_wf(named_values_view(value_entries(members))) ==> r@.wf(),
    {
        let ms = value_map_into_vec(members);
        assert(value_fields_view(ms@) =~= named_values_view(value_entries(members)));
        assert(distinct_names(value_fields_view(ms@))) by {
            assert forall|i: int, j: int| 0 <= i < j < ms@.len() implies value_fields_view(
                ms@,
            )[i].0 != value_fields_view(ms@)[j].0 by {
                assert(ms@[i].0@ != ms@[j].0@);
            }
        }
        instance_of(ms)
    }

    /// The tuple of `values`, in their order.
    pub fn tuple(values: Vec<ConstValue>) -> (r: ConstValue)
        ensures
            r@ == ValueView::tuple(values_view(values@)),
            (forall|i: int| 0 <= i < values@.len() ==> (#[trigger] values@[i])@.wf()) ==> r@.wf(),
    {
        let ghost given = values@;
        let mut values = values;
        let mut reversed: Vec<ConstValue> = Vec::new();
        while values.len() > 0
            invariant
                values@.len() + reversed@.len() == given.len(),
                forall|j: int| 0 <= j < values@.len() ==> values@[j] == given[j],
                forall|j: int|
                    0 <= j < reversed@.len() ==> reversed@[j] == given[given.len() - 1 - j],
            decreases values@.len(),
        {
            match values.pop() {
                Some(v) => reversed.push(v),
                None => {},
            }
        }
        let mut members: Vec<(String, ConstValue)> = Vec::new();
        while reversed.len() > 0
            invariant
                members@.len() + reversed@.len() == given.len(),
                forall|j: int|
                    0 <= j < reversed@.len() ==> reversed@[j] == given[given.len() - 1 - j],
                forall|j: int|
                    0 <= j < members@.len() ==> (#[trigger] members@[j]).0@ == decimal(j as nat)
                        && members@[j].1 == given[j],
            decreases reversed@.len(),
        {
            let i = members.len();
            let ghost rest = reversed@;
            match reversed.pop() {
                Some(v) => {
                    assert(v == rest[rest.len() - 1]);
                    assert(v == given[i as int]);
                    let name = index_name(i);
                    let ghost before = members@;
                    members.push((name, v));
                    assert forall|j: int| 0 <= j < members@.len() implies members@[j].0@
                        == decimal(j as nat) && members@[j].1 == given[j] by {
                        if j < i {
                            assert(members@[j] == before[j]);
                        }
                    }
                },
                None => {},
            }
        }
        assert(value_fields_view(members@) =~= Seq::new(
            values_view(given).len(),
            |i: int| (decimal(i as nat), values_view(given)[i]),
        ));
        proof {
            let fields = value_fields_view(members@);
            assert forall|i: int, j: int| 0 <= i < j < fields.len() implies fields[i].0
                != fields[j].0 by {
                if decimal(i as nat) == decimal(j as nat) {
                    lemma_decimal_injective(i as nat, j as nat);
                }
            }
            if forall|i: int| 0 <= i < given.len() ==> (#[trigger] given[i])@.wf() {
                assert forall|i: int| 0 <= i < fields.len() implies (#[trigger] fields[i]).1.wf() by {
                    assert(given[i]@.wf());
                }
            }
        }
        instance_of(members)
    }

    /// The value that stands for a name of type `ty` that was never bound.
    pub fn default_for(ty: &Type) -> (r: ConstValue)
        ensures
            r@ == ty@.default_value(),
            ty@.wf() ==> r@.wf(),
        decreases ty,
    {
        match ty {
            Type::Empty => ConstValue::empty(),
            Type::CoercibleInteger => ConstValue::cinteger(0),
            Type::CoercibleFloat => ConstValue::cfloat(0),
            Type::Integer { width, signed } => ConstValue::integer(0, *width, *signed),
            Type::Float { width } => ConstValue::float(0, *width),
            Type::Function { .. } => ConstValue::empty(),
            Type::RecordInstance { members } => {
                let defaults = default_members(members);
                proof {
                    let declared = type_fields_view(members@);
                    let fields = value_fields_view(defaults@);
                    if ty@.wf() {
                        assert forall|i: int, j: int| 0 <= i < j < fields.len() implies fields[i].0
                            != fields[j].0 by {
                            assert(declared[i].0 != declared[j].0);
                        }
                        assert forall|i: int| 0 <= i < fields.len() implies (#[trigger] fields[i]).1.wf() by {
                            assert(declared[i].1.wf());
                        }
                    }
                }
                instance_of(defaults)
            },
            Type::Symbol(_) => ConstValue::empty(),
        }
    }
}

/// The record instance with the given members, in their order.
fn instance_of(members: Vec<(String, ConstValue)>) -> (r: ConstValue)
    ensures
        r@ == ValueView::record_instance(value_fields_view(members@)),
        distinct_names(value_fields_view(members@)) && all_wf(value_fields_view(members@))
            ==> r@.wf(),
{
    let mut types: Vec<(String, Type)> = Vec::new();
    let mut i: usize = 0;
    while i < members.len()
        invariant
            i <= members.len(),
            types@.len() == i,
            forall|j: int|
                0 <= j < i ==> types@[j].0@ == members@[j].0@ && types@[j].1@
                    == members@[j].1.ty@,
        decreases members.len() - i,
    {
        let name = members[i].0.clone();
        let ty = members[i].1.ty.clone();
        types.push((name, ty));
        i += 1;
    }
    assert(type_fields_view(types@) =~= member_types(value_fields_view(members@)));
    proof {
        let fields = value_fields_view(members@);
        if distinct_names(fields) && all_wf(fields) {
            lemma_record_instance_wf(fields);
        }
    }
    ConstValue {
        ty: Type::RecordInstance { members: types },
        kind: ConstValueKind::RecordInstance { members },
    }
}

fn default_members(members: &Vec<(String, Type)>) -> (r: Vec<(String, ConstValue)>)
    ensures
        value_fields_view(r@) == default_fields(type_fields_view(members@)),
        forall|i: int|
            0 <= i < members@.len() && members@[i].1@.wf() ==> (#[trigger] r@[i]).1@.wf(),
        r@.len() == members@.len(),
    decreases members,
{
    let mut out: Vec<(String, ConstValue)> = Vec::new();
    let mut i: usize = 0;
    while i < members.len()
        invariant
            i <= members.len(),
            out@.len() == i,
            forall|j: int|
                0 <= j < i ==> (#[trigger] out@[j]).0@ == members@[j].0@ && out@[j].1@
                    == members@[j].1@.default_value() && (members@[j].1@.wf()
                    ==> out@[j].1@.wf()),
        decreases members.len() - i,
    {
        let name = members[i].0.clone();
        let value = ConstValue::default_for(&members[i].1);
        out.push((name, value));
        i += 1;
    }
    assert(value_fields_view(out@) =~= default_fields(type_fields_view(members@)));
    out
}

} // verus!
