//! Scopes: the bindings of names to values, and the chain from each scope
//! outward to the global one.

use crate::text::same_text;
use crate::token::{Token, TokenType};
use crate::value::{LoxError, LoxValue, ValueModel};
use vstd::prelude::*;
use vstd::string::StringExecFns;

verus! {

/// What one scope is, as a mathematical value: the scope around it, if it
/// has one, and the values that its names are bound to.
pub struct ScopeModel<'a> {
    pub enclosed: Option<usize>,
    pub bindings: Map<Seq<char>, ValueModel<'a>>,
}

impl<'a> ScopeModel<'a> {
    /// A scope without bindings.
    pub open spec fn empty(enclosed: Option<usize>) -> ScopeModel<'a> {
        ScopeModel { enclosed, bindings: Map::empty() }
    }

    /// The scope with `name` bound to `value`.
    pub open spec fn bind(self, name: Seq<char>, value: ValueModel<'a>) -> ScopeModel<'a> {
        ScopeModel { enclosed: self.enclosed, bindings: self.bindings.insert(name, value) }
    }
}

/// The scope that binds `name` for code that runs in `scope`: the first one
/// on the way from `scope` outward that has a binding for it.
pub open spec fn holder(scopes: Seq<ScopeModel>, scope: int, name: Seq<char>) -> Option<int>
    decreases scope,
{
    if 0 <= scope < scopes.len() {
        if scopes[scope].bindings.dom().contains(name) {
            Some(scope)
        } else {
            match scopes[scope].enclosed {
                Some(parent) => if parent < scope {
                    holder(scopes, parent as int, name)
                } else {
                    None
                },
                None => None,
            }
        }
    } else {
        None
    }
}

/// The value that `name` stands for in `scope`, if it is bound there or in a
/// scope around it.
pub open spec fn lookup<'a>(scopes: Seq<ScopeModel<'a>>, scope: int, name: Seq<char>) -> Option<
    ValueModel<'a>,
> {
    match holder(scopes, scope, name) {
        Some(found) => Some(scopes[found].bindings[name]),
        None => None,
    }
}

/// The scopes after `name` has been bound to `value` in `scope` itself.
pub open spec fn defined<'a>(
    scopes: Seq<ScopeModel<'a>>,
    scope: int,
    name: Seq<char>,
    value: ValueModel<'a>,
) -> Seq<ScopeModel<'a>> {
    scopes.update(scope, scopes[scope].bind(name, value))
}

/// The scopes after `value` has been assigned to `name` from `scope`: the
/// binding in the scope that holds `name` is replaced, or, when no scope on
/// the way outward binds `name`, nothing changes.
pub open spec fn assigned<'a>(
    scopes: Seq<ScopeModel<'a>>,
    scope: int,
    name: Seq<char>,
    value: ValueModel<'a>,
) -> Seq<ScopeModel<'a>> {
    match holder(scopes, scope, name) {
        Some(found) => defined(scopes, found, name, value),
        None => scopes,
    }
}

/// The message for a read of a name that is bound nowhere.
pub open spec fn undefined_read(name: Seq<char>) -> Seq<char> {
    "Undefined variable: "@ + name
}

/// The message for a write to a name that is bound nowhere.
pub open spec fn undefined_write(name: Seq<char>) -> Seq<char> {
    "Undefined variable '"@ + name + "'."@
}

/// Whether the scope `link` lies on the way from `scope` outward.
pub open spec fn on_chain(scopes: Seq<ScopeModel>, scope: int, link: int) -> bool
    decreases scope,
{
    if 0 <= scope < scopes.len() {
        link == scope || match scopes[scope].enclosed {
            Some(parent) => parent < scope && on_chain(scopes, parent as int, link),
            None => false,
        }
    } else {
        false
    }
}

/// A name that was just defined in a scope reads back, from that scope, as
/// the value it was defined with.
pub proof fn lemma_define_then_get<'a>(
    scopes: Seq<ScopeModel<'a>>,
    scope: int,
    name: Seq<char>,
    value: ValueModel<'a>,
)
    requires
        0 <= scope < scopes.len(),
    ensures
        lookup(defined(scopes, scope, name, value), scope, name) == Some(value),
{
}

/// The scope that holds a name lies on the chain, and no scope nearer on the
/// chain binds the name; when no scope holds it, no scope of the chain binds
/// it.
pub proof fn lemma_holder_on_chain(scopes: Seq<ScopeModel>, scope: int, name: Seq<char>)
    ensures
        match holder(scopes, scope, name) {
            Some(found) => {
                &&& on_chain(scopes, scope, found)
                &&& 0 <= found < scopes.len()
                &&& scopes[found].bindings.dom().contains(name)
            },
            None => forall|link: int| #[trigger]
                on_chain(scopes, scope, link) ==> !scopes[link].bindings.dom().contains(name),
        },
    decreases scope,
{
    if 0 <= scope < scopes.len() && !scopes[scope].bindings.dom().contains(name) {
        match scopes[scope].enclosed {
            Some(parent) => {
                if parent < scope {
                    lemma_holder_on_chain(scopes, parent as int, name);
                }
            },
            None => {},
        }
    }
    if holder(scopes, scope, name) is None {
        assert forall|link: int| #[trigger] on_chain(scopes, scope, link) implies !scopes[link].bindings.dom().contains(
            name,
        ) by {
            if link != scope {
                let parent = scopes[scope].enclosed.unwrap();
                assert(on_chain(scopes, parent as int, link));
            }
        }
    }
}

/// A name that no scope of the chain binds can be neither read nor written
/// from `scope`: reading finds nothing, writing changes nothing, and either
/// failure is reported with a message that starts with `Undefined`.
pub proof fn lemma_unbound_name<'a>(
    scopes: Seq<ScopeModel<'a>>,
    scope: int,
    name: Seq<char>,
    value: ValueModel<'a>,
)
    requires
        forall|link: int| #[trigger]
            on_chain(scopes, scope, link) ==> !scopes[link].bindings.dom().contains(name),
    ensures
        holder(scopes, scope, name) is None,
        lookup(scopes, scope, name) is None,
        assigned(scopes, scope, name, value) == scopes,
        "Undefined"@.is_prefix_of(undefined_read(name)),
        "Undefined"@.is_prefix_of(undefined_write(name)),
{
    lemma_holder_on_chain(scopes, scope, name);
    reveal_strlit("Undefined");
    reveal_strlit("Undefined variable: ");
    reveal_strlit("Undefined variable '");
    assert("Undefined"@ =~= undefined_read(name).subrange(0, 9));
    assert("Undefined"@ =~= undefined_write(name).subrange(0, 9));
}

/// What a name stands for in a scope depends only on that scope and the
/// scopes created before it.
pub proof fn lemma_holder_ignores_later_scopes(
    before: Seq<ScopeModel>,
    after: Seq<ScopeModel>,
    scope: int,
    name: Seq<char>,
)
    requires
        0 <= scope < before.len() <= after.len(),
        forall|i: int| 0 <= i <= scope ==> before[i] == after[i],
    ensures
        holder(after, scope, name) == holder(before, scope, name),
    decreases scope,
{
    if !before[scope].bindings.dom().contains(name) {
        match before[scope].enclosed {
            Some(parent) => {
                if parent < scope {
                    lemma_holder_ignores_later_scopes(before, after, parent as int, name);
                }
            },
            None => {},
        }
    }
}

/// A scope without a binding for a name shares the name with the scope
/// around it: a read from inside finds what a read from outside finds, and a
/// write from inside is a write from outside.
pub proof fn lemma_inner_scope_shares<'a>(
    scopes: Seq<ScopeModel<'a>>,
    inner: int,
    outer: usize,
    name: Seq<char>,
    value: ValueModel<'a>,
)
    requires
        outer < inner < scopes.len(),
        scopes[inner].enclosed == Some(outer),
        !scopes[inner].bindings.dom().contains(name),
    ensures
        lookup(scopes, inner, name) == lookup(scopes, outer as int, name),
        assigned(scopes, inner, name, value) == assigned(scopes, outer as int, name, value),
{
}

/// A value that was assigned to a bound name reads back from the same scope.
pub proof fn lemma_assign_then_get<'a>(
    scopes: Seq<ScopeModel<'a>>,
    scope: int,
    name: Seq<char>,
    value: ValueModel<'a>,
)
    requires
        holder(scopes, scope, name) is Some,
    ensures
        lookup(assigned(scopes, scope, name, value), scope, name) == Some(value),
        holder(assigned(scopes, scope, name, value), scope, name) == holder(scopes, scope, name),
    decreases scope,
{
    let found = holder(scopes, scope, name).unwrap();
    let after = assigned(scopes, scope, name, value);
    lemma_holder_on_chain(scopes, scope, name);
    if !scopes[scope].bindings.dom().contains(name) {
        let parent = scopes[scope].enclosed.unwrap();
        lemma_assign_then_get(scopes, parent as int, name, value);
        assert(assigned(scopes, parent as int, name, value) == after);
        lemma_found_below(scopes, parent as int, name);
        assert(after[scope] == scopes[scope]);
    }
}

/// The scope that holds a name for code in `scope` is `scope` itself or one
/// created before it.
pub proof fn lemma_found_below(scopes: Seq<ScopeModel>, scope: int, name: Seq<char>)
    ensures
        match holder(scopes, scope, name) {
            Some(found) => 0 <= found <= scope,
            None => true,
        },
    decreases scope,
{
    if 0 <= scope < scopes.len() && !scopes[scope].bindings.dom().contains(name) {
        match scopes[scope].enclosed {
            Some(parent) => {
                if parent < scope {
                    lemma_found_below(scopes, parent as int, name);
                }
            },
            None => {},
        }
    }
}

/// The bindings that parallel lists of names and values stand for; where a
/// name occurs twice, the later occurrence counts.
pub open spec fn bindings_of<'a>(names: Seq<String>, values: Seq<LoxValue<'a>>) -> Map<
    Seq<char>,
    ValueModel<'a>,
>
    decreases names.len(),
{
    if names.len() == 0 || names.len() != values.len() {
        Map::empty()
    } else {
        bindings_of(names.drop_last(), values.drop_last()).insert(names.last()@, values.last()@)
    }
}

/// No two names of the list spell the same.
pub open spec fn distinct(names: Seq<String>) -> bool {
    forall|i: int, j: int| 0 <= i < j < names.len() ==> names[i]@ != names[j]@
}

/// A name is bound exactly when it is in the list.
proof fn lemma_bound_names<'a>(names: Seq<String>, values: Seq<LoxValue<'a>>, name: Seq<char>)
    requires
        names.len() == values.len(),
    ensures
        bindings_of(names, values).dom().contains(name) <==> exists|i: int|
            0 <= i < names.len() && names[i]@ == name,
    decreases names.len(),
{
    if names.len() > 0 {
        lemma_bound_names(names.drop_last(), values.drop_last(), name);
        if names.last()@ == name {
            assert(names[names.len() - 1]@ == name);
        } else if bindings_of(names, values).dom().contains(name) {
            let i = choose|i: int| 0 <= i < names.len() - 1 && names.drop_last()[i]@ == name;
            assert(names[i]@ == name);
        } else {
            assert forall|i: int| 0 <= i < names.len() implies names[i]@ != name by {
                if i < names.len() - 1 {
                    assert(names.drop_last()[i]@ != name);
                }
            }
        }
    }
}

/// Each name of a list without repetition is bound to the value beside it.
proof fn lemma_bound_value<'a>(names: Seq<String>, values: Seq<LoxValue<'a>>, at: int)
    requires
        names.len() == values.len(),
        distinct(names),
        0 <= at < names.len(),
    ensures
        bindings_of(names, values).dom().contains(names[at]@),
        bindings_of(names, values)[names[at]@] == values[at]@,
    decreases names.len(),
{
    if at < names.len() - 1 {
        lemma_bound_value(names.drop_last(), values.drop_last(), at);
    }
}

/// Replacing the value beside a name rebinds that name and no other.
proof fn lemma_rebound<'a>(
    names: Seq<String>,
    values: Seq<LoxValue<'a>>,
    at: int,
    value: LoxValue<'a>,
)
    requires
        names.len() == values.len(),
        distinct(names),
        0 <= at < names.len(),
    ensures
        bindings_of(names, values.update(at, value)) == bindings_of(names, values).insert(
            names[at]@,
            value@,
        ),
    decreases names.len(),
{
    let changed = values.update(at, value);
    if at < names.len() - 1 {
        lemma_rebound(names.drop_last(), values.drop_last(), at, value);
        assert(changed.drop_last() =~= values.drop_last().update(at, value));
        assert(bindings_of(names, changed) =~= bindings_of(names, values).insert(
            names[at]@,
            value@,
        ));
    } else {
        assert(changed.drop_last() =~= values.drop_last());
        assert(bindings_of(names, changed) =~= bindings_of(names, values).insert(
            names[at]@,
            value@,
        ));
    }
}

/// Adding a name with its value at the end binds that name.
proof fn lemma_bound_more<'a>(
    names: Seq<String>,
    values: Seq<LoxValue<'a>>,
    name: String,
    value: LoxValue<'a>,
)
    requires
        names.len() == values.len(),
    ensures
        bindings_of(names.push(name), values.push(value)) == bindings_of(names, values).insert(
            name@,
            value@,
        ),
{
    assert(names.push(name).drop_last() =~= names);
    assert(values.push(value).drop_last() =~= values);
}

/// One scope: the handle of the scope around it and its own bindings.
pub struct Scope<'a> {
    enclosed: Option<usize>,
    names: Vec<String>,
    values: Vec<LoxValue<'a>>,
}

impl<'a> View for Scope<'a> {
    type V = ScopeModel<'a>;

    closed spec fn view(&self) -> ScopeModel<'a> {
        ScopeModel { enclosed: self.enclosed, bindings: bindings_of(self.names@, self.values@) }
    }
}

impl<'a> Scope<'a> {
    /// Every name has its value, and no name is listed twice.
    spec fn well_formed(&self) -> bool {
        &&& self.names@.len() == self.values@.len()
        &&& distinct(self.names@)
    }

    /// Where `name` is listed, if it is bound in this scope.
    fn find(&self, name: &str) -> (found: Option<usize>)
        requires
            self.well_formed(),
        ensures
            match found {
                Some(at) => {
                    &&& at < self.names@.len()
                    &&& self.names@[at as int]@ == name@
                    &&& self@.bindings.dom().contains(name@)
                    &&& self@.bindings[name@] == self.values@[at as int]@
                },
                None => !self@.bindings.dom().contains(name@),
            },
    {
        let mut at: usize = 0;
        while at < self.names.len()
            invariant
                at <= self.names@.len(),
                self.well_formed(),
                forall|i: int| 0 <= i < at ==> self.names@[i]@ != name@,
            decreases self.names@.len() - at,
        {
            if same_text(self.names[at].as_str(), name) {
                proof {
                    lemma_bound_value(self.names@, self.values@, at as int);
                }
                return Some(at);
            }
            at += 1;
        }
        proof {
            lemma_bound_names(self.names@, self.values@, name@);
        }
        None
    }

    /// Binds `name` to `value` in this scope, in place of an earlier binding
    /// of the name if there is one.
    fn set(&mut self, name: &str, value: LoxValue<'a>)
        requires
            old(self).well_formed(),
        ensures
            final(self).well_formed(),
            final(self)@ == old(self)@.bind(name@, value@),
    {
        match self.find(name) {
            Some(at) => {
                proof {
                    lemma_rebound(self.names@, self.values@, at as int, value);
                }
                self.values[at] = value;
            },
            None => {
                let ghost names = self.names@;
                let owned = String::from_str(name);
                proof {
                    lemma_bound_more(self.names@, self.values@, owned, value);
                    lemma_bound_names(self.names@, self.values@, name@);
                }
                self.names.push(owned);
                self.values.push(value);
                assert(distinct(self.names@)) by {
                    assert forall|i: int, j: int| 0 <= i < j < self.names@.len() implies self.names@[i]@
                        != self.names@[j]@ by {
                        if j < names.len() {
                            assert(names[i]@ != names[j]@);
                        } else {
                            assert(names[i]@ != name@);
                        }
                    }
                }
            },
        }
    }
}

/// The scopes of a running program. A scope is named by its handle, the
/// position at which it was created; scopes are never removed, so that a
/// function value can reach the scope it was declared in for as long as the
/// value lives. The scope with handle 0 is the global one.
pub struct Environment<'a> {
    scopes: Vec<Scope<'a>>,
}

impl<'a> View for Environment<'a> {
    type V = Seq<ScopeModel<'a>>;

    closed spec fn view(&self) -> Seq<ScopeModel<'a>> {
        self.scopes@.map_values(|scope: Scope<'a>| scope@)
    }
}

/// The handle of the global scope.
pub const GLOBAL: usize = 0;

impl<'a> Environment<'a> {
    /// The global scope exists, every scope is in order, and the scope
    /// around a scope was created before it.
    pub closed spec fn well_formed(&self) -> bool {
        &&& self.scopes@.len() > 0
        &&& forall|i: int|
            0 <= i < self.scopes@.len() ==> {
                &&& (#[trigger] self.scopes@[i]).well_formed()
                &&& match self.scopes@[i].enclosed {
                    Some(parent) => parent < i,
                    None => true,
                }
            }
    }

    /// The chain of every scope leads strictly outward, and there is a
    /// global scope without a scope around it.
    pub proof fn lemma_well_formed(&self)
        requires
            self.well_formed(),
        ensures
            self@.len() > 0,
            self@[0].enclosed is None,
            forall|i: int|
                0 <= i < self@.len() ==> match (#[trigger] self@[i]).enclosed {
                    Some(parent) => parent < i,
                    None => true,
                },
    {
        assert(self.scopes@[0].well_formed());
        assert forall|i: int| 0 <= i < self@.len() implies match (#[trigger] self@[i]).enclosed {
            Some(parent) => parent < i,
            None => true,
        } by {
            assert(self.scopes@[i].well_formed());
        }
    }

    /// The number of scopes fits a machine word.
    pub proof fn lemma_count_fits(&self)
        ensures
            self@.len() <= usize::MAX,
    {
        assert(self@.len() == self.scopes.len());
    }

    /// An environment that holds the global scope, with no bindings.
    pub fn new() -> (environment: Environment<'a>)
        ensures
            environment.well_formed(),
            environment@ == seq![ScopeModel::empty(None)],
    {
        let mut scopes: Vec<Scope<'a>> = Vec::new();
        scopes.push(Scope { enclosed: None, names: Vec::new(), values: Vec::new() });
        let environment = Environment { scopes };
        assert(environment@ =~= seq![ScopeModel::empty(None)]);
        environment
    }

    /// The number of scopes; the handles are the numbers below it.
    pub fn len(&self) -> (count: usize)
        ensures
            count == self@.len(),
    {
        self.scopes.len()
    }

    /// Creates an empty scope inside `enclosing` and returns its handle.
    pub fn new_enclosed(&mut self, enclosing: usize) -> (scope: usize)
        requires
            old(self).well_formed(),
            enclosing < old(self)@.len(),
        ensures
            final(self).well_formed(),
            scope == old(self)@.len(),
            final(self)@ == old(self)@.push(ScopeModel::empty(Some(enclosing))),
    {
        let scope = self.scopes.len();
        self.scopes.push(Scope { enclosed: Some(enclosing), names: Vec::new(), values: Vec::new() });
        assert(self@ =~= old(self)@.push(ScopeModel::empty(Some(enclosing))));
        assert forall|i: int| 0 <= i < self.scopes@.len() implies {
            &&& (#[trigger] self.scopes@[i]).well_formed()
            &&& match self.scopes@[i].enclosed {
                Some(parent) => parent < i,
                None => true,
            }
        } by {
            if i < scope {
                assert(old(self).scopes@[i].well_formed());
            }
        }
        scope
    }

    /// Binds `name` to `value` in `scope` itself. A binding that the scope
    /// already has for the name is replaced.
    pub fn define(&mut self, scope: usize, name: &str, value: &LoxValue<'a>)
        requires
            old(self).well_formed(),
            scope < old(self)@.len(),
        ensures
            final(self).well_formed(),
            final(self)@ == defined(old(self)@, scope as int, name@, value@),
            final(self)@.len() == old(self)@.len(),
    {
        assert(self.scopes@[scope as int].well_formed());
        let target = &mut self.scopes[scope];
        target.set(name, value.clone());
        assert(self@ =~= defined(old(self)@, scope as int, name@, value@));
        assert forall|i: int| 0 <= i < self.scopes@.len() implies {
            &&& (#[trigger] self.scopes@[i]).well_formed()
            &&& match self.scopes@[i].enclosed {
                Some(parent) => parent < i,
                None => true,
            }
        } by {
            if i != scope {
                assert(old(self).scopes@[i].well_formed());
            }
        }
    }

    /// The handle of the scope that binds `name` for code in `scope`, and
    /// where in that scope the name is listed.
    fn find_holder(&self, scope: usize, name: &str) -> (found: Option<(usize, usize)>)
        requires
            self.well_formed(),
            scope < self@.len(),
        ensures
            match found {
                Some((at, position)) => {
                    &&& at < self@.len()
                    &&& holder(self@, scope as int, name@) == Some(at as int)
                    &&& position < self.scopes@[at as int].values@.len()
                    &&& self@[at as int].bindings[name@] == self.scopes@[at as int].values@[position as int]@
                },
                None => holder(self@, scope as int, name@) is None,
            },
    {
        let mut at = scope;
        loop
            invariant
                self.well_formed(),
                at < self@.len(),
                holder(self@, at as int, name@) == holder(self@, scope as int, name@),
            decreases at,
        {
            assert(self.scopes@[at as int].well_formed());
            if let Some(position) = self.scopes[at].find(name) {
                return Some((at, position));
            }
            match self.scopes[at].enclosed {
                Some(parent) => {
                    at = parent;
                },
                None => {
                    return None;
                },
            }
        }
    }

    /// Gives `name` the value `value` in the nearest scope, from `scope`
    /// outward, that binds it. Fails, and changes nothing, when no such scope
    /// exists.
    pub fn assign(&mut self, scope: usize, name: &str, value: &LoxValue<'a>) -> (result: Result<
        (),
        LoxError,
    >)
        requires
            old(self).well_formed(),
            scope < old(self)@.len(),
        ensures
            final(self).well_formed(),
            final(self)@ == assigned(old(self)@, scope as int, name@, value@),
            final(self)@.len() == old(self)@.len(),
            match result {
                Ok(_) => holder(old(self)@, scope as int, name@) is Some,
                Err(error) => {
                    &&& holder(old(self)@, scope as int, name@) is None
                    &&& error@ == undefined_write(name@)
                },
            },
    {
        match self.find_holder(scope, name) {
            Some((found, _)) => {
                self.define(found, name, value);
                Ok(())
            },
            None => {
                let mut message = String::from_str("Undefined variable '");
                message.append(name);
                message.append("'.");
                Err(LoxError::Standard(message))
            },
        }
    }

    /// The value of the variable that `token` names, looked up from `scope`
    /// outward. Fails when no scope on the way binds the name.
    pub fn get(&self, scope: usize, token: &Token) -> (result: Result<LoxValue<'a>, LoxError>)
        requires
            self.well_formed(),
            scope < self@.len(),
            token.token_type == TokenType::Identifier,
        ensures
            match result {
                Ok(value) => lookup(self@, scope as int, token.literal@) == Some(value@),
                Err(error) => {
                    &&& lookup(self@, scope as int, token.literal@) is None
                    &&& error@ == undefined_read(token.literal@)
                },
            },
    {
        let name = token.literal.as_str();
        match self.find_holder(scope, name) {
            Some((found, position)) => Ok(self.scopes[found].values[position].clone()),
            None => {
                let mut message = String::from_str("Undefined variable: ");
                message.append(name);
                Err(LoxError::Standard(message))
            },
        }
    }
}

} // verus!
