//! Semantic-analysis state: lifetimes and borrows, escape facts, loop facts
//! and the scoped symbol table.
use vstd::prelude::*;
use crate::ast::{Parameter, StructField, Literal, UnaryOperator, BinaryOperator};
use crate::optimizer::names::{starts_with, has_prefix};
use crate::assoc::{assoc_lookup, assoc_find, lemma_assoc_update, lemma_assoc_push, lemma_assoc_found, lemma_assoc_absent};
use crate::text::{owned, str_eq, string_push_str, split_words, words, chars_of, string_from_chars};

verus! {

/// A named lifetime such as `'a`.
#[derive(Debug, Clone)]
pub struct Lifetime(pub String);

/// Whether a lifetime with the same name is in the list.
pub open spec fn has_lifetime(v: Seq<Lifetime>, l: Seq<char>) -> bool {
    exists|i: int| 0 <= i < v.len() && #[trigger] v[i].0@ == l
}

fn contains_lifetime(v: &Vec<Lifetime>, l: &Lifetime) -> (r: bool)
    ensures
        r == has_lifetime(v@, l.0@),
{
    let mut i: usize = 0;
    while i < v.len()
        invariant
            i <= v@.len(),
            forall|j: int| 0 <= j < i ==> #[trigger] v@[j].0@ != l.0@,
        decreases v@.len() - i,
    {
        if str_eq(v[i].0.as_str(), l.0.as_str()) {
            return true;
        }
        i = i + 1;
    }
    false
}

fn copy_lifetime(l: &Lifetime) -> (r: Lifetime)
    ensures
        r.0@ == l.0@,
{
    Lifetime(l.0.clone())
}

/// The lifetimes in scope, the declared parameters and the recorded borrows.
#[derive(Debug, Clone)]
pub struct LifetimeContext {
    pub active_lifetimes: Vec<Lifetime>,
    pub lifetime_parameters: Vec<Lifetime>,
    pub borrow_tracker: Vec<BorrowRecord>,
}

/// A borrow of a value of some lifetime.
#[derive(Debug)]
pub struct BorrowRecord {
    pub borrowed_lifetime: Lifetime,
    pub borrower: String,
    pub is_mutable: bool,
    pub position: (usize, usize),
}

/// A set of lifetimes without repeats.
#[derive(Debug, Clone)]
pub struct LifetimeRegion(pub Vec<Lifetime>);

impl LifetimeRegion {
    pub fn new() -> (r: LifetimeRegion)
        ensures
            r.0@.len() == 0,
    {
        LifetimeRegion(Vec::new())
    }

    /// Adds the lifetime unless one of the same name is there.
    pub fn add_lifetime(&mut self, lifetime: Lifetime)
        ensures
            has_lifetime(old(self).0@, lifetime.0@) ==> final(self).0@ == old(self).0@,
            !has_lifetime(old(self).0@, lifetime.0@) ==> final(self).0@ == old(self).0@.push(lifetime),
    {
        if !contains_lifetime(&self.0, &lifetime) {
            self.0.push(lifetime);
        }
    }

    pub fn contains(&self, lifetime: &Lifetime) -> (r: bool)
        ensures
            r == has_lifetime(self.0@, lifetime.0@),
    {
        contains_lifetime(&self.0, lifetime)
    }
}

/// Errors of lifetime checking.
#[derive(Debug, Clone)]
pub enum LifetimeError {
    UndefinedLifetime(Lifetime),
    ReturnedLifetimeError(Lifetime),
    MutableBorrowConflict(String, String),
    ImmutableBorrowConflict(String),
    BorrowedValueLifetimeTooShort,
    LifetimeMismatch { expected: Lifetime, found: Lifetime },
    CannotAssignToBorrowed,
    DanglingReference,
}

/// The records whose lifetime is among `active`, in order.
pub open spec fn records_in_scope(records: Seq<BorrowRecord>, active: Seq<Lifetime>) -> Seq<BorrowRecord>
    decreases records.len(),
{
    if records.len() == 0 {
        Seq::empty()
    } else {
        let rest = records_in_scope(records.drop_last(), active);
        if has_lifetime(active, records.last().borrowed_lifetime.0@) {
            rest.push(records.last())
        } else {
            rest
        }
    }
}

/// The first record borrowing `l` with the given mutability.
pub open spec fn first_borrow(records: Seq<BorrowRecord>, l: Seq<char>, mutable: bool) -> Option<BorrowRecord>
    decreases records.len(),
{
    if records.len() == 0 {
        None
    } else if records[0].borrowed_lifetime.0@ == l && records[0].is_mutable == mutable {
        Some(records[0])
    } else {
        first_borrow(records.drop_first(), l, mutable)
    }
}

fn find_borrow(records: &Vec<BorrowRecord>, l: &Lifetime, mutable: bool) -> (r: Option<usize>)
    ensures
        match r {
            Some(i) => i < records@.len() && first_borrow(records@, l.0@, mutable) == Some(records@[i as int]),
            None => first_borrow(records@, l.0@, mutable) is None,
        },
{
    let mut i: usize = 0;
    assert(records@.skip(0) =~= records@);
    while i < records.len()
        invariant
            i <= records@.len(),
            first_borrow(records@, l.0@, mutable) == first_borrow(records@.skip(i as int), l.0@, mutable),
        decreases records@.len() - i,
    {
        let ghost rest = records@.skip(i as int);
        assert(rest[0] == records@[i as int]);
        if records[i].is_mutable == mutable && str_eq(records[i].borrowed_lifetime.0.as_str(), l.0.as_str()) {
            return Some(i);
        }
        assert(rest.drop_first() =~= records@.skip(i + 1));
        i = i + 1;
    }
    assert(records@.skip(i as int) =~= Seq::<BorrowRecord>::empty());
    None
}

impl LifetimeContext {
    /// No lifetimes and no borrows.
    pub fn new() -> (r: LifetimeContext)
        ensures
            r.active_lifetimes@.len() == 0,
            r.lifetime_parameters@.len() == 0,
            r.borrow_tracker@.len() == 0,
    {
        LifetimeContext { active_lifetimes: Vec::new(), lifetime_parameters: Vec::new(), borrow_tracker: Vec::new() }
    }

    /// Opens a scope, marked by an unnamed lifetime.
    pub fn enter_scope(&mut self)
        ensures
            final(self).active_lifetimes@.len() == old(self).active_lifetimes@.len() + 1,
            final(self).active_lifetimes@.drop_last() == old(self).active_lifetimes@,
            final(self).active_lifetimes@.last().0@ == Seq::<char>::empty(),
            final(self).lifetime_parameters == old(self).lifetime_parameters,
            final(self).borrow_tracker == old(self).borrow_tracker,
    {
        self.active_lifetimes.push(Lifetime(String::new()));
        assert(self.active_lifetimes@.drop_last() =~= old(self).active_lifetimes@);
    }

    /// Closes the innermost scope and forgets the borrows whose lifetime is
    /// no longer active.
    pub fn exit_scope(&mut self)
        ensures
            final(self).active_lifetimes@ == (if old(self).active_lifetimes@.len() > 0 {
                old(self).active_lifetimes@.drop_last()
            } else {
                old(self).active_lifetimes@
            }),
            final(self).borrow_tracker@ == records_in_scope(
                old(self).borrow_tracker@,
                final(self).active_lifetimes@,
            ),
            final(self).lifetime_parameters == old(self).lifetime_parameters,
    {
        self.active_lifetimes.pop();
        let mut rest: Vec<BorrowRecord> = Vec::new();
        std::mem::swap(&mut rest, &mut self.borrow_tracker);
        let ghost recs = rest@;
        let ghost mut done: Seq<BorrowRecord> = Seq::empty();
        let mut kept: Vec<BorrowRecord> = Vec::new();
        while rest.len() > 0
            invariant
                recs == done + rest@,
                kept@ == records_in_scope(done, self.active_lifetimes@),
            decreases rest@.len(),
        {
            let ghost r0 = rest@;
            let rec = rest.remove(0);
            let keep = contains_lifetime(&self.active_lifetimes, &rec.borrowed_lifetime);
            proof {
                let d0 = done;
                done = done.push(rec);
                assert(done.drop_last() =~= d0);
                assert(recs =~= done + rest@) by {
                    assert(r0 =~= seq![rec] + rest@);
                }
            }
            if keep {
                kept.push(rec);
            }
        }
        proof {
            assert(recs =~= done);
        }
        self.borrow_tracker = kept;
    }

    /// Declares a lifetime parameter, which is also active.
    pub fn declare_lifetime(&mut self, lifetime: Lifetime)
        ensures
            final(self).lifetime_parameters@.len() == old(self).lifetime_parameters@.len() + 1,
            final(self).lifetime_parameters@.drop_last() == old(self).lifetime_parameters@,
            final(self).lifetime_parameters@.last().0@ == lifetime.0@,
            final(self).active_lifetimes@ == old(self).active_lifetimes@.push(lifetime),
            final(self).borrow_tracker == old(self).borrow_tracker,
    {
        self.lifetime_parameters.push(copy_lifetime(&lifetime));
        self.active_lifetimes.push(lifetime);
        assert(self.lifetime_parameters@.drop_last() =~= old(self).lifetime_parameters@);
    }

    /// Whether a lifetime of this name is active or declared.
    pub fn is_lifetime_in_scope(&self, lifetime: &Lifetime) -> (r: bool)
        ensures
            r == (has_lifetime(self.active_lifetimes@, lifetime.0@) || has_lifetime(
                self.lifetime_parameters@,
                lifetime.0@,
            )),
    {
        contains_lifetime(&self.active_lifetimes, lifetime) || contains_lifetime(&self.lifetime_parameters, lifetime)
    }

    pub fn record_borrow(
        &mut self,
        borrowed_lifetime: Lifetime,
        borrower: String,
        is_mutable: bool,
        position: (usize, usize),
    )
        ensures
            final(self).borrow_tracker@ == old(self).borrow_tracker@.push(
                BorrowRecord { borrowed_lifetime, borrower, is_mutable, position },
            ),
            final(self).active_lifetimes == old(self).active_lifetimes,
            final(self).lifetime_parameters == old(self).lifetime_parameters,
    {
        self.borrow_tracker.push(BorrowRecord { borrowed_lifetime, borrower, is_mutable, position });
    }

    /// A conflict when the lifetime is borrowed both mutably and immutably:
    /// it names the first mutable and the first immutable borrower.
    pub fn check_borrows(&self, lifetime: &Lifetime) -> (r: Result<(), LifetimeError>)
        ensures
            match (first_borrow(self.borrow_tracker@, lifetime.0@, true), first_borrow(
                self.borrow_tracker@,
                lifetime.0@,
                false,
            )) {
                (Some(m), Some(i)) => r is Err && (r->Err_0 matches LifetimeError::MutableBorrowConflict(a, b)
                    && a@ == m.borrower@ && b@ == i.borrower@),
                _ => r is Ok,
            },
    {
        let m = find_borrow(&self.borrow_tracker, lifetime, true);
        let i = find_borrow(&self.borrow_tracker, lifetime, false);
        match (m, i) {
            (Some(a), Some(b)) => Err(
                LifetimeError::MutableBorrowConflict(
                    self.borrow_tracker[a].borrower.clone(),
                    self.borrow_tracker[b].borrower.clone(),
                ),
            ),
            _ => Ok(()),
        }
    }
}

fn copy_record(r: &BorrowRecord) -> (c: BorrowRecord)
    ensures
        c.borrowed_lifetime.0@ == r.borrowed_lifetime.0@,
        c.borrower@ == r.borrower@,
        c.is_mutable == r.is_mutable,
        c.position == r.position,
{
    BorrowRecord {
        borrowed_lifetime: copy_lifetime(&r.borrowed_lifetime),
        borrower: r.borrower.clone(),
        is_mutable: r.is_mutable,
        position: r.position,
    }
}

impl Clone for BorrowRecord {
    fn clone(&self) -> (c: BorrowRecord)
        ensures
            c.borrowed_lifetime.0@ == self.borrowed_lifetime.0@,
            c.borrower@ == self.borrower@,
            c.is_mutable == self.is_mutable,
            c.position == self.position,
    {
        copy_record(self)
    }
}

impl Default for LifetimeContext {
    fn default() -> (r: LifetimeContext)
        ensures
            r.active_lifetimes@.len() == 0,
            r.lifetime_parameters@.len() == 0,
            r.borrow_tracker@.len() == 0,
    {
        LifetimeContext::new()
    }
}

/// `s` without its leading `'` characters.
pub open spec fn strip_quotes(s: Seq<char>) -> Seq<char>
    decreases s.len(),
{
    if s.len() > 0 && s[0] == '\'' { strip_quotes(s.drop_first()) } else { s }
}

/// The lifetime named by a reference type such as `&'a T`: its second word
/// without leading quotes.
pub open spec fn ref_lifetime(ty: Seq<char>) -> Option<Seq<char>> {
    if words(ty).len() > 1 { Some(strip_quotes(words(ty)[1])) } else { None }
}

/// Checks the borrows of a function's parameters.
pub struct BorrowChecker {
    pub lifetime_context: LifetimeContext,
    pub errors: Vec<LifetimeError>,
}

/// Number of parameters whose type starts with `&`.
pub open spec fn ref_param_count(ps: Seq<Parameter>) -> nat
    decreases ps.len(),
{
    if ps.len() == 0 {
        0
    } else {
        ref_param_count(ps.drop_last()) + match ps.last().ty {
            Some(t) => if t@.len() > 0 && t@[0] == '&' { 1nat } else { 0nat },
            None => 0nat,
        }
    }
}

/// The lifetimes named by the reference parameters, in order.
pub open spec fn declared_lifetimes(ps: Seq<Parameter>) -> Seq<Seq<char>>
    decreases ps.len(),
{
    if ps.len() == 0 {
        Seq::empty()
    } else {
        declared_lifetimes(ps.drop_last()) + match ps.last().ty {
            Some(t) => if t@.len() > 0 && t@[0] == '&' {
                match ref_lifetime(t@) {
                    Some(l) => seq![l],
                    None => Seq::empty(),
                }
            } else {
                Seq::empty()
            },
            None => Seq::empty(),
        }
    }
}

fn strip_quotes_exec(s: &String) -> (r: String)
    ensures
        r@ == strip_quotes(s@),
{
    let v = chars_of(s.as_str());
    let mut i: usize = 0;
    assert(v@.skip(0) =~= v@);
    while i < v.len() && v[i] == '\''
        invariant
            i <= v@.len(),
            strip_quotes(s@) == strip_quotes(v@.skip(i as int)),
            v@ == s@,
        decreases v@.len() - i,
    {
        assert(v@.skip(i as int).drop_first() =~= v@.skip(i + 1));
        i = i + 1;
    }
    let mut out: Vec<char> = Vec::new();
    let mut k = i;
    while k < v.len()
        invariant
            i <= k <= v@.len(),
            out@ == v@.subrange(i as int, k as int),
        decreases v@.len() - k,
    {
        out.push(v[k]);
        k = k + 1;
        assert(out@ =~= v@.subrange(i as int, k as int));
    }
    assert(v@.skip(i as int) =~= v@.subrange(i as int, v@.len() as int));
    string_from_chars(&out)
}

impl BorrowChecker {
    pub fn new() -> (r: BorrowChecker)
        ensures
            r.lifetime_context.active_lifetimes@.len() == 0,
            r.lifetime_context.lifetime_parameters@.len() == 0,
            r.lifetime_context.borrow_tracker@.len() == 0,
            r.errors@.len() == 0,
    {
        BorrowChecker { lifetime_context: LifetimeContext::new(), errors: Vec::new() }
    }

    /// For each parameter whose type starts with `&`, opens a scope and
    /// declares the lifetime its second word names (quotes stripped). Fails
    /// with the errors already recorded, if any.
    pub fn check_function_borrows(&mut self, params: &[Parameter], body_type: &str) -> (r: Result<(), Vec<LifetimeError>>)
        ensures
            final(self).lifetime_context.lifetime_parameters@.len() == old(self).lifetime_context.lifetime_parameters@.len()
                + declared_lifetimes(params@).len(),
            forall|k: int| 0 <= k < declared_lifetimes(params@).len() ==> #[trigger] final(self).lifetime_context.lifetime_parameters@[old(self).lifetime_context.lifetime_parameters@.len() + k].0@
                == declared_lifetimes(params@)[k],
            final(self).lifetime_context.active_lifetimes@.len() == old(self).lifetime_context.active_lifetimes@.len()
                + ref_param_count(params@) + declared_lifetimes(params@).len(),
            final(self).errors == old(self).errors,
            r is Ok <==> old(self).errors@.len() == 0,
            r matches Err(e) ==> e@ == old(self).errors@,
    {
        let ghost p0 = self.lifetime_context.lifetime_parameters@;
        let ghost a0 = self.lifetime_context.active_lifetimes@.len();
        let mut i: usize = 0;
        while i < params.len()
            invariant
                i <= params@.len(),
                self.errors == old(self).errors,
                self.lifetime_context.lifetime_parameters@.len() == p0.len() + declared_lifetimes(params@.take(i as int)).len(),
                forall|k: int| 0 <= k < p0.len() ==> #[trigger] self.lifetime_context.lifetime_parameters@[k] == p0[k],
                forall|k: int| 0 <= k < declared_lifetimes(params@.take(i as int)).len() ==> #[trigger] self.lifetime_context.lifetime_parameters@[p0.len() + k].0@
                    == declared_lifetimes(params@.take(i as int))[k],
                self.lifetime_context.active_lifetimes@.len() == a0 + ref_param_count(params@.take(i as int))
                    + declared_lifetimes(params@.take(i as int)).len(),
            decreases params@.len() - i,
        {
            proof {
                assert(params@.take(i + 1).drop_last() =~= params@.take(i as int));
                assert(params@.take(i + 1).last() == params@[i as int]);
            }
            let ghost before = self.lifetime_context.lifetime_parameters@;
            let ghost dl = declared_lifetimes(params@.take(i as int));
            match &params[i].ty {
                Some(ty) => {
                    let tv = chars_of(ty.as_str());
                    if tv.len() > 0 && tv[0] == '&' {
                        self.lifetime_context.enter_scope();
                        let parts = split_words(ty.as_str());
                        if parts.len() > 1 {
                            proof {
                                assert(parts@.map_values(|w: String| w@)[1] == parts@[1]@);
                            }
                            let name = strip_quotes_exec(&parts[1]);
                            self.lifetime_context.declare_lifetime(Lifetime(name));
                            proof {
                                let now = self.lifetime_context.lifetime_parameters@;
                                assert forall|k: int| 0 <= k < before.len() implies now[k] == before[k] by {
                                    assert(now.drop_last()[k] == before[k]);
                                }
                                let nd = declared_lifetimes(params@.take(i + 1));
                                assert(nd =~= dl.push(strip_quotes(parts@[1]@)));
                                assert forall|k: int| 0 <= k < nd.len() implies #[trigger] self.lifetime_context.lifetime_parameters@[p0.len() + k].0@
                                    == nd[k] by {
                                    if k < dl.len() {
                                        assert(self.lifetime_context.lifetime_parameters@[p0.len() + k] == before[p0.len() + k]);
                                    }
                                }
                            }
                        } else {
                            proof {
                                assert(declared_lifetimes(params@.take(i + 1)) =~= dl);
                            }
                        }
                    } else {
                        proof {
                            assert(declared_lifetimes(params@.take(i + 1)) =~= dl);
                        }
                    }
                },
                None => {
                    proof {
                        assert(declared_lifetimes(params@.take(i + 1)) =~= dl);
                    }
                },
            }
            i = i + 1;
        }
        assert(params@.take(params@.len() as int) =~= params@);
        if self.errors.len() > 0 {
            Err(copy_errors(&self.errors))
        } else {
            Ok(())
        }
    }
}

/// An exact copy of one error.
fn copy_error(e: &LifetimeError) -> (r: LifetimeError)
    ensures
        r == *e,
{
    match e {
        LifetimeError::UndefinedLifetime(l) => LifetimeError::UndefinedLifetime(Lifetime(l.0.clone())),
        LifetimeError::ReturnedLifetimeError(l) => LifetimeError::ReturnedLifetimeError(Lifetime(l.0.clone())),
        LifetimeError::MutableBorrowConflict(a, b) => LifetimeError::MutableBorrowConflict(a.clone(), b.clone()),
        LifetimeError::ImmutableBorrowConflict(a) => LifetimeError::ImmutableBorrowConflict(a.clone()),
        LifetimeError::BorrowedValueLifetimeTooShort => LifetimeError::BorrowedValueLifetimeTooShort,
        LifetimeError::LifetimeMismatch { expected, found } => LifetimeError::LifetimeMismatch {
            expected: Lifetime(expected.0.clone()),
            found: Lifetime(found.0.clone()),
        },
        LifetimeError::CannotAssignToBorrowed => LifetimeError::CannotAssignToBorrowed,
        LifetimeError::DanglingReference => LifetimeError::DanglingReference,
    }
}

/// An exact copy of a list of errors.
fn copy_errors(v: &Vec<LifetimeError>) -> (r: Vec<LifetimeError>)
    ensures
        r@ == v@,
{
    let mut r: Vec<LifetimeError> = Vec::new();
    let mut i: usize = 0;
    while i < v.len()
        invariant
            i <= v@.len(),
            r@ == v@.take(i as int),
        decreases v@.len() - i,
    {
        let e = copy_error(&v[i]);
        r.push(e);
        proof {
            assert(v@.take(i + 1) =~= v@.take(i as int).push(v@[i as int]));
        }
        i = i + 1;
    }
    proof {
        assert(v@.take(v@.len() as int) =~= v@);
    }
    r
}

impl Default for BorrowChecker {
    fn default() -> (r: BorrowChecker)
        ensures
            r.lifetime_context.active_lifetimes@.len() == 0,
            r.errors@.len() == 0,
    {
        BorrowChecker::new()
    }
}


/// What is known of a variable's escape.
#[derive(Debug, Clone, Copy, PartialEq, Eq, Structural)]
pub struct EscapeInfo {
    pub escapes: bool,
    pub captured_by_ref: bool,
    pub address_taken: bool,
}

/// Nothing known: no flag set.
pub open spec fn no_escape() -> EscapeInfo {
    EscapeInfo { escapes: false, captured_by_ref: false, address_taken: false }
}

/// The key of a variable in a context: `context_name`.
pub open spec fn escape_key(name: Seq<char>, context: Seq<char>) -> Seq<char> {
    context + "_"@ + name
}

fn make_key(name: &str, context: &str) -> (r: String)
    ensures
        r@ == escape_key(name@, context@),
{
    let mut k = owned(context);
    string_push_str(&mut k, "_");
    string_push_str(&mut k, name);
    k
}

/// Escape facts of variables, keyed by context and name.
pub struct EscapeAnalyzer {
    pub escape_info: Vec<(String, EscapeInfo)>,
    pub in_loop: bool,
    pub in_function: bool,
}

/// The facts recorded under a key, or none.
pub open spec fn info_of(table: Seq<(String, EscapeInfo)>, key: Seq<char>) -> EscapeInfo {
    match assoc_lookup(table, key) {
        Some(i) => i,
        None => no_escape(),
    }
}

impl EscapeAnalyzer {
    pub fn new() -> (r: EscapeAnalyzer)
        ensures
            r.escape_info@.len() == 0,
            !r.in_loop,
            !r.in_function,
    {
        EscapeAnalyzer { escape_info: Vec::new(), in_loop: false, in_function: false }
    }

    /// The facts recorded for the variable, or none.
    pub fn analyze_variable(&mut self, name: &str, context: &str) -> (r: EscapeInfo)
        ensures
            r == info_of(old(self).escape_info@, escape_key(name@, context@)),
            final(self).escape_info == old(self).escape_info,
            final(self).in_loop == old(self).in_loop,
            final(self).in_function == old(self).in_function,
    {
        let key = make_key(name, context);
        match assoc_find(&self.escape_info, &key) {
            Some(i) => {
                proof {
                    lemma_assoc_found(self.escape_info@, i as int);
                }
                self.escape_info[i].1
            },
            None => {
                proof {
                    lemma_assoc_absent(self.escape_info@, key@);
                }
                EscapeInfo { escapes: false, captured_by_ref: false, address_taken: false }
            },
        }
    }

    /// Records the facts `info` for `key`, replacing an earlier record.
    fn set_info(&mut self, key: String, info: EscapeInfo)
        ensures
            assoc_lookup(final(self).escape_info@, key@) == Some(info),
            forall|k: Seq<char>| k != key@ ==> assoc_lookup(final(self).escape_info@, k) == assoc_lookup(
                old(self).escape_info@,
                k,
            ),
            final(self).in_loop == old(self).in_loop,
            final(self).in_function == old(self).in_function,
    {
        let ghost t = self.escape_info@;
        match assoc_find(&self.escape_info, &key) {
            Some(i) => {
                self.escape_info[i].1 = info;
                proof {
                    assert(self.escape_info@ == t.update(i as int, (t[i as int].0, info)));
                    assert forall|n: Seq<char>| assoc_lookup(self.escape_info@, n) == if n == key@ {
                        Some(info)
                    } else {
                        assoc_lookup(t, n)
                    } by {
                        lemma_assoc_update(t, i as int, info, n);
                    }
                }
            },
            None => {
                let ghost kv = key@;
                self.escape_info.push((key, info));
                proof {
                    assert forall|n: Seq<char>| assoc_lookup(self.escape_info@, n) == if n == kv {
                        Some(info)
                    } else {
                        assoc_lookup(t, n)
                    } by {
                        lemma_assoc_push(t, self.escape_info@.last(), n);
                        assert(self.escape_info@ == t.push(self.escape_info@.last()));
                    }
                }
            },
        }
    }

    fn current_info(&self, key: &String) -> (r: EscapeInfo)
        ensures
            r == info_of(self.escape_info@, key@),
    {
        match assoc_find(&self.escape_info, key) {
            Some(i) => {
                proof {
                    lemma_assoc_found(self.escape_info@, i as int);
                }
                self.escape_info[i].1
            },
            None => {
                proof {
                    lemma_assoc_absent(self.escape_info@, key@);
                }
                EscapeInfo { escapes: false, captured_by_ref: false, address_taken: false }
            },
        }
    }

    /// Marks the variable as escaping its scope.
    pub fn mark_escaped(&mut self, name: &str, context: &str)
        ensures
            assoc_lookup(final(self).escape_info@, escape_key(name@, context@)) == Some(
                EscapeInfo { escapes: true, ..info_of(old(self).escape_info@, escape_key(name@, context@)) },
            ),
            forall|k: Seq<char>| k != escape_key(name@, context@) ==> assoc_lookup(final(self).escape_info@, k)
                == assoc_lookup(old(self).escape_info@, k),
    {
        let key = make_key(name, context);
        let mut info = self.current_info(&key);
        info.escapes = true;
        self.set_info(key, info);
    }

    /// Marks the variable as captured by reference.
    pub fn mark_captured_by_ref(&mut self, name: &str, context: &str)
        ensures
            assoc_lookup(final(self).escape_info@, escape_key(name@, context@)) == Some(
                EscapeInfo { captured_by_ref: true, ..info_of(old(self).escape_info@, escape_key(name@, context@)) },
            ),
            forall|k: Seq<char>| k != escape_key(name@, context@) ==> assoc_lookup(final(self).escape_info@, k)
                == assoc_lookup(old(self).escape_info@, k),
    {
        let key = make_key(name, context);
        let mut info = self.current_info(&key);
        info.captured_by_ref = true;
        self.set_info(key, info);
    }

    /// Marks the variable as having its address taken.
    pub fn mark_address_taken(&mut self, name: &str, context: &str)
        ensures
            assoc_lookup(final(self).escape_info@, escape_key(name@, context@)) == Some(
                EscapeInfo { address_taken: true, ..info_of(old(self).escape_info@, escape_key(name@, context@)) },
            ),
            forall|k: Seq<char>| k != escape_key(name@, context@) ==> assoc_lookup(final(self).escape_info@, k)
                == assoc_lookup(old(self).escape_info@, k),
    {
        let key = make_key(name, context);
        let mut info = self.current_info(&key);
        info.address_taken = true;
        self.set_info(key, info);
    }

    /// Whether any escape fact is recorded for the variable.
    pub fn should_allocate_on_heap(&self, name: &str, context: &str) -> (r: bool)
        ensures
            r == ({
                let i = info_of(self.escape_info@, escape_key(name@, context@));
                i.escapes || i.captured_by_ref || i.address_taken
            }),
    {
        let key = make_key(name, context);
        let info = self.current_info(&key);
        info.escapes || info.captured_by_ref || info.address_taken
    }
}

impl Default for EscapeAnalyzer {
    fn default() -> (r: EscapeAnalyzer)
        ensures
            r.escape_info@.len() == 0,
    {
        EscapeAnalyzer::new()
    }
}

/// What is known of a loop.
#[derive(Debug, Clone)]
pub struct LoopInfo {
    pub is_invariant: bool,
    pub can_unroll: bool,
    pub unroll_factor: u32,
    pub induction_variable: Option<String>,
    pub bounds_known: bool,
}

/// Loop facts keyed by label, and the current nesting depth.
pub struct LoopOptimizer {
    pub loop_info: Vec<(String, LoopInfo)>,
    pub current_loop_depth: u32,
}

/// Unroll factor at a nesting depth: 1 outside loops, else `4 >> depth`.
pub open spec fn unroll_factor_at(depth: u32) -> u32 {
    if depth == 0 { 1 } else { (4u32 >> depth) as u32 }
}

impl LoopOptimizer {
    pub fn new() -> (r: LoopOptimizer)
        ensures
            r.loop_info@.len() == 0,
            r.current_loop_depth == 0,
    {
        LoopOptimizer { loop_info: Vec::new(), current_loop_depth: 0 }
    }

    pub fn enter_loop(&mut self, loop_label: &str)
        requires
            old(self).current_loop_depth < u32::MAX,
        ensures
            final(self).current_loop_depth == old(self).current_loop_depth + 1,
            final(self).loop_info == old(self).loop_info,
    {
        self.current_loop_depth = self.current_loop_depth + 1;
    }

    pub fn exit_loop(&mut self)
        ensures
            final(self).current_loop_depth == if old(self).current_loop_depth > 0 {
                (old(self).current_loop_depth - 1) as u32
            } else {
                0
            },
            final(self).loop_info == old(self).loop_info,
    {
        if self.current_loop_depth > 0 {
            self.current_loop_depth = self.current_loop_depth - 1;
        }
    }

    /// Records the loop's facts for the current depth: it may be unrolled at
    /// depth 2 or less, by `unroll_factor_at(depth)`.
    pub fn analyze_loop(&mut self, loop_label: &str)
        requires
            old(self).current_loop_depth < 32,
        ensures
            ({
                let i = assoc_lookup(final(self).loop_info@, loop_label@);
                &&& i is Some
                &&& !i->0.is_invariant
                &&& i->0.can_unroll == (old(self).current_loop_depth <= 2)
                &&& i->0.unroll_factor == unroll_factor_at(old(self).current_loop_depth)
                &&& i->0.induction_variable is None
                &&& !i->0.bounds_known
            }),
            forall|k: Seq<char>| k != loop_label@ ==> assoc_lookup(final(self).loop_info@, k) == assoc_lookup(
                old(self).loop_info@,
                k,
            ),
            final(self).current_loop_depth == old(self).current_loop_depth,
    {
        let d = self.current_loop_depth;
        let info = LoopInfo {
            is_invariant: false,
            can_unroll: d <= 2,
            unroll_factor: if d == 0 { 1 } else { 4u32 >> d },
            induction_variable: None,
            bounds_known: false,
        };
        let key = owned(loop_label);
        let ghost t = self.loop_info@;
        let ghost iv = info;
        match assoc_find(&self.loop_info, &key) {
            Some(i) => {
                self.loop_info[i].1 = info;
                proof {
                    assert(self.loop_info@ == t.update(i as int, (t[i as int].0, iv)));
                    assert forall|n: Seq<char>| assoc_lookup(self.loop_info@, n) == if n == key@ {
                        Some(iv)
                    } else {
                        assoc_lookup(t, n)
                    } by {
                        lemma_assoc_update(t, i as int, iv, n);
                    }
                }
            },
            None => {
                let ghost kv = key@;
                self.loop_info.push((key, info));
                proof {
                    assert forall|n: Seq<char>| assoc_lookup(self.loop_info@, n) == if n == kv {
                        Some(iv)
                    } else {
                        assoc_lookup(t, n)
                    } by {
                        lemma_assoc_push(t, self.loop_info@.last(), n);
                        assert(self.loop_info@ == t.push(self.loop_info@.last()));
                    }
                }
            },
        }
    }

    /// Names the loop's induction variable, if the loop has been analysed.
    pub fn mark_induction_variable(&mut self, loop_label: &str, var_name: &str)
        ensures
            match assoc_lookup(old(self).loop_info@, loop_label@) {
                Some(i) => {
                    let j = assoc_lookup(final(self).loop_info@, loop_label@);
                    &&& j is Some
                    &&& j->0.induction_variable is Some
                    &&& j->0.induction_variable->0@ == var_name@
                    &&& j->0.can_unroll == i.can_unroll
                    &&& j->0.unroll_factor == i.unroll_factor
                    &&& j->0.is_invariant == i.is_invariant
                    &&& j->0.bounds_known == i.bounds_known
                },
                None => final(self).loop_info == old(self).loop_info,
            },
            forall|k: Seq<char>| k != loop_label@ ==> assoc_lookup(final(self).loop_info@, k) == assoc_lookup(
                old(self).loop_info@,
                k,
            ),
            final(self).current_loop_depth == old(self).current_loop_depth,
    {
        let key = owned(loop_label);
        let ghost t = self.loop_info@;
        match assoc_find(&self.loop_info, &key) {
            Some(i) => {
                proof {
                    lemma_assoc_found(t, i as int);
                }
                self.loop_info[i].1.induction_variable = Some(owned(var_name));
                proof {
                    let nv = self.loop_info@[i as int].1;
                    assert(self.loop_info@ == t.update(i as int, (t[i as int].0, nv)));
                    assert forall|n: Seq<char>| assoc_lookup(self.loop_info@, n) == if n == key@ {
                        Some(nv)
                    } else {
                        assoc_lookup(t, n)
                    } by {
                        lemma_assoc_update(t, i as int, nv, n);
                    }
                }
            },
            None => {
                proof {
                    lemma_assoc_absent(t, key@);
                }
            },
        }
    }

    /// Whether the loop has been analysed as unrollable.
    pub fn can_optimize(&self, loop_label: &str) -> (r: bool)
        ensures
            r == match assoc_lookup(self.loop_info@, loop_label@) {
                Some(i) => i.can_unroll,
                None => false,
            },
    {
        let key = owned(loop_label);
        match assoc_find(&self.loop_info, &key) {
            Some(i) => {
                proof {
                    lemma_assoc_found(self.loop_info@, i as int);
                }
                self.loop_info[i].1.can_unroll
            },
            None => {
                proof {
                    lemma_assoc_absent(self.loop_info@, key@);
                }
                false
            },
        }
    }

    /// The loop's unroll factor, 1 if it has not been analysed.
    pub fn get_unroll_factor(&self, loop_label: &str) -> (r: u32)
        ensures
            r == match assoc_lookup(self.loop_info@, loop_label@) {
                Some(i) => i.unroll_factor,
                None => 1,
            },
    {
        let key = owned(loop_label);
        match assoc_find(&self.loop_info, &key) {
            Some(i) => {
                proof {
                    lemma_assoc_found(self.loop_info@, i as int);
                }
                self.loop_info[i].1.unroll_factor
            },
            None => {
                proof {
                    lemma_assoc_absent(self.loop_info@, key@);
                }
                1
            },
        }
    }
}

impl Default for LoopOptimizer {
    fn default() -> (r: LoopOptimizer)
        ensures
            r.loop_info@.len() == 0,
            r.current_loop_depth == 0,
    {
        LoopOptimizer::new()
    }
}


/// Errors of semantic analysis.
#[derive(Debug, Clone)]
pub enum SemanticError {
    UndefinedIdentifier(String),
    Redeclaration(String),
    TypeMismatch { expected: String, found: String },
    WrongArgumentCount { name: String, expected: usize, found: usize },
    WrongArgumentType { name: String, arg_idx: usize, expected: String, found: String },
    UndefinedStruct(String),
    UndefinedEnum(String),
    UndefinedField { struct_name: String, field_name: String },
    UndefinedVariant { enum_name: String, variant_name: String },
    ExpectedEnumVariant { expected: String, found: String },
    CannotAssignToImmutable(String),
    NotAFunction(String),
    NotAType(String),
    InvalidType(String),
    UnsupportedFeature(String),
    InvalidDotOperator(String),
    InvalidIndexOperator(String),
    InvalidDeref,
    InvalidRef,
    CannotReturnFromVoidFunction,
    MissingReturnValue(String),
    InvalidMatchPattern,
    DuplicateMatchPattern,
    NonExhaustiveMatch,
    InvalidPattern(String),
    InvalidSyntax(String),
}

/// What a symbol names.
#[derive(Debug)]
pub enum SymbolKind {
    Variable { mutable: bool, ty: String },
    Function { params: Vec<(String, String)>, return_type: String },
    Struct { fields: Vec<StructField> },
    Enum { variants: Vec<(String, Option<Vec<StructField>>)> },
    TypeAlias { ty: String },
}

/// A named symbol at a source position (line, column).
#[derive(Debug)]
pub struct Symbol {
    pub name: String,
    pub kind: SymbolKind,
    pub position: (usize, usize),
}

/// Scopes of symbols, the global scope first; `current_scope` is the index
/// of the innermost.
#[derive(Debug)]
pub struct SymbolTable {
    pub scopes: Vec<Vec<(String, Symbol)>>,
    pub current_scope: usize,
}

/// The names defined when a table is made, in order.
pub open spec fn builtin_names() -> Seq<Seq<char>> {
    seq![
        "int"@, "float"@, "string"@, "bool"@, "void"@, "null"@, "print"@, "println"@, "len"@,
        "to_string"@, "List"@, "Unit"@,
    ]
}

/// A built-in type: an alias of its own name.
pub open spec fn is_builtin_type(s: Symbol, name: Seq<char>) -> bool {
    &&& s.name@ == name
    &&& s.kind matches SymbolKind::TypeAlias { ty } && ty@ == name
    &&& s.position == (0usize, 0usize)
}

/// A built-in function of one parameter `value`.
pub open spec fn is_builtin_fn(s: Symbol, name: Seq<char>, param: Seq<char>, ret: Seq<char>) -> bool {
    &&& s.name@ == name
    &&& s.kind matches SymbolKind::Function { params, return_type } && params@.len() == 1
        && params@[0].0@ == "value"@ && params@[0].1@ == param && return_type@ == ret
    &&& s.position == (0usize, 0usize)
}

/// The symbol found for `name` searching scopes `i` down to 0.
pub open spec fn lookup_from(scopes: Seq<Vec<(String, Symbol)>>, i: int, name: Seq<char>) -> Option<Symbol>
    decreases i + 1,
{
    if i < 0 || i >= scopes.len() {
        None
    } else {
        match assoc_lookup(scopes[i]@, name) {
            Some(s) => Some(s),
            None => lookup_from(scopes, i - 1, name),
        }
    }
}

/// Index of the first entry named `name`, or -1.
pub open spec fn assoc_position<V>(t: Seq<(String, V)>, name: Seq<char>) -> int
    decreases t.len(),
{
    if t.len() == 0 {
        -1
    } else if t[0].0@ == name {
        0
    } else {
        let p = assoc_position(t.drop_first(), name);
        if p < 0 { -1 } else { p + 1 }
    }
}

proof fn lemma_assoc_position<V>(t: Seq<(String, V)>, j: int)
    requires
        0 <= j < t.len(),
        forall|k: int| 0 <= k < j ==> t[k].0@ != t[j].0@,
    ensures
        assoc_position(t, t[j].0@) == j,
    decreases t.len(),
{
    if j > 0 {
        assert(t[0].0@ != t[j].0@);
        lemma_assoc_position(t.drop_first(), j - 1);
    }
}

proof fn lemma_assoc_position_absent<V>(t: Seq<(String, V)>, n: Seq<char>)
    requires
        forall|k: int| 0 <= k < t.len() ==> t[k].0@ != n,
    ensures
        assoc_position(t, n) == -1,
    decreases t.len(),
{
    if t.len() > 0 {
        lemma_assoc_position_absent(t.drop_first(), n);
    }
}

/// Scope and entry where `name` is found searching scopes `i` down to 0.
pub open spec fn position_from(scopes: Seq<Vec<(String, Symbol)>>, i: int, name: Seq<char>) -> Option<(int, int)>
    decreases i + 1,
{
    if i < 0 || i >= scopes.len() {
        None
    } else if assoc_position(scopes[i]@, name) >= 0 {
        Some((i, assoc_position(scopes[i]@, name)))
    } else {
        position_from(scopes, i - 1, name)
    }
}

fn type_symbol(name: &str) -> (r: Symbol)
    ensures
        is_builtin_type(r, name@),
{
    Symbol { name: owned(name), kind: SymbolKind::TypeAlias { ty: owned(name) }, position: (0, 0) }
}

fn fn_symbol(name: &str, param: &str, ret: &str) -> (r: Symbol)
    ensures
        is_builtin_fn(r, name@, param@, ret@),
{
    let mut params: Vec<(String, String)> = Vec::new();
    params.push((owned("value"), owned(param)));
    Symbol {
        name: owned(name),
        kind: SymbolKind::Function { params, return_type: owned(ret) },
        position: (0, 0),
    }
}

impl SymbolTable {
    /// Scopes are a stack whose top is the current scope.
    pub open spec fn wf(&self) -> bool {
        self.scopes@.len() == self.current_scope + 1
    }

    /// The symbol `name` resolves to from the current scope.
    pub open spec fn resolve(&self, name: Seq<char>) -> Option<Symbol> {
        lookup_from(self.scopes@, self.current_scope as int, name)
    }

    /// One global scope of the twelve built-in names: the types `int`,
    /// `float`, `string`, `bool`, `void`, `null`, `List` and `Unit`, each an
    /// alias of itself, and the functions `print` and `println` of a string,
    /// `len` of a string and `to_string` of an int.
    pub open spec fn fresh(&self) -> bool {
        &&& self.wf()
        &&& self.current_scope == 0
        &&& self.scopes@[0]@.len() == 12
        &&& forall|k: int| 0 <= k < 12 ==> #[trigger] self.scopes@[0]@[k].0@ == builtin_names()[k] && self.scopes@[0]@[k].1.name@
            == builtin_names()[k]
        &&& forall|k: int| (0 <= k < 6 || 10 <= k < 12) ==> is_builtin_type(#[trigger] self.scopes@[0]@[k].1, builtin_names()[k])
        &&& is_builtin_fn(self.scopes@[0]@[6].1, "print"@, "string"@, "void"@)
        &&& is_builtin_fn(self.scopes@[0]@[7].1, "println"@, "string"@, "void"@)
        &&& is_builtin_fn(self.scopes@[0]@[8].1, "len"@, "string"@, "int"@)
        &&& is_builtin_fn(self.scopes@[0]@[9].1, "to_string"@, "int"@, "string"@)
    }

    /// One global scope holding the built-in types `int`, `float`, `string`,
    /// `bool`, `void`, `null`, `List` and `Unit` and the built-in functions
    /// `print`, `println` and `len` of a string and `to_string` of an int.
    pub fn new() -> (r: SymbolTable)
        ensures
            r.fresh(),
    {
        let mut g: Vec<(String, Symbol)> = Vec::new();
        g.push((owned("int"), type_symbol("int")));
        g.push((owned("float"), type_symbol("float")));
        g.push((owned("string"), type_symbol("string")));
        g.push((owned("bool"), type_symbol("bool")));
        g.push((owned("void"), type_symbol("void")));
        g.push((owned("null"), type_symbol("null")));
        g.push((owned("print"), fn_symbol("print", "string", "void")));
        g.push((owned("println"), fn_symbol("println", "string", "void")));
        g.push((owned("len"), fn_symbol("len", "string", "int")));
        g.push((owned("to_string"), fn_symbol("to_string", "int", "string")));
        g.push((owned("List"), type_symbol("List")));
        g.push((owned("Unit"), type_symbol("Unit")));
        let mut scopes: Vec<Vec<(String, Symbol)>> = Vec::new();
        scopes.push(g);
        SymbolTable { scopes, current_scope: 0 }
    }

    /// Opens an empty innermost scope.
    pub fn enter_scope(&mut self)
        requires
            old(self).wf(),
            old(self).current_scope < usize::MAX,
        ensures
            final(self).wf(),
            final(self).scopes@ == old(self).scopes@.push(final(self).scopes@.last()),
            final(self).scopes@.last()@.len() == 0,
            final(self).current_scope == old(self).current_scope + 1,
    {
        self.scopes.push(Vec::new());
        self.current_scope = self.current_scope + 1;
    }

    /// Drops the innermost scope, unless it is the global one.
    pub fn exit_scope(&mut self)
        requires
            old(self).wf(),
        ensures
            final(self).wf(),
            old(self).current_scope > 0 ==> final(self).scopes@ == old(self).scopes@.drop_last()
                && final(self).current_scope == old(self).current_scope - 1,
            old(self).current_scope == 0 ==> final(self).scopes@ == old(self).scopes@
                && final(self).current_scope == 0,
    {
        if self.current_scope > 0 {
            self.scopes.pop();
            self.current_scope = self.current_scope - 1;
        }
    }

    /// Defines a symbol in the current scope; a name already defined there
    /// is a redeclaration.
    pub fn define_symbol(&mut self, symbol: Symbol) -> (r: Result<(), SemanticError>)
        requires
            old(self).wf(),
        ensures
            final(self).wf(),
            final(self).current_scope == old(self).current_scope,
            assoc_lookup(old(self).scopes@[old(self).current_scope as int]@, symbol.name@) is Some ==> {
                &&& r is Err
                &&& r->Err_0 matches SemanticError::Redeclaration(n) && n@ == symbol.name@
                &&& final(self).scopes@ == old(self).scopes@
            },
            assoc_lookup(old(self).scopes@[old(self).current_scope as int]@, symbol.name@) is None ==> {
                &&& r is Ok
                &&& final(self).scopes@.len() == old(self).scopes@.len()
                &&& forall|i: int| 0 <= i < old(self).scopes@.len() && i != old(self).current_scope ==> final(self).scopes@[i]
                    == old(self).scopes@[i]
                &&& forall|n: Seq<char>| #[trigger] assoc_lookup(final(self).scopes@[old(self).current_scope as int]@, n)
                    == if n == symbol.name@ {
                    Some(symbol)
                } else {
                    assoc_lookup(old(self).scopes@[old(self).current_scope as int]@, n)
                }
            },
    {
        let c = self.current_scope;
        let ghost t = self.scopes@[c as int]@;
        match assoc_find(&self.scopes[c], &symbol.name) {
            Some(i) => {
                proof {
                    lemma_assoc_found(t, i as int);
                }
                Err(SemanticError::Redeclaration(symbol.name))
            },
            None => {
                proof {
                    lemma_assoc_absent(t, symbol.name@);
                }
                let key = symbol.name.clone();
                let ghost sym = symbol;
                let ghost kv = key@;
                self.scopes[c].push((key, symbol));
                proof {
                    let nt = self.scopes@[c as int]@;
                    assert(nt == t.push(nt.last()));
                    assert forall|n: Seq<char>| #[trigger] assoc_lookup(nt, n) == if n == sym.name@ {
                        Some(sym)
                    } else {
                        assoc_lookup(t, n)
                    } by {
                        lemma_assoc_push(t, nt.last(), n);
                    }
                }
                Ok(())
            },
        }
    }

    /// The symbol named `name` in the innermost scope that has one.
    pub fn lookup_symbol(&self, name: &str) -> (r: Option<&Symbol>)
        requires
            self.wf(),
        ensures
            match r {
                Some(s) => self.resolve(name@) == Some(*s),
                None => self.resolve(name@) is None,
            },
    {
        let key = owned(name);
        let mut i: usize = self.scopes.len();
        while i > 0
            invariant
                i <= self.current_scope + 1,
                self.wf(),
                key@ == name@,
                self.resolve(name@) == lookup_from(self.scopes@, i - 1, name@),
            decreases i,
        {
            match assoc_find(&self.scopes[i - 1], &key) {
                Some(j) => {
                    proof {
                        lemma_assoc_found(self.scopes@[i - 1]@, j as int);
                    }
                    return Some(&self.scopes[i - 1][j].1);
                },
                None => {
                    proof {
                        lemma_assoc_absent(self.scopes@[i - 1]@, key@);
                    }
                },
            }
            i = i - 1;
        }
        None
    }

    /// The symbol named `name` in the innermost scope that has one, to be
    /// changed in place.
    pub fn lookup_symbol_mut(&mut self, name: &str) -> (r: Option<&mut Symbol>)
        requires
            old(self).wf(),
        ensures
            match r {
                Some(s) => {
                    let (i, j) = position_from(old(self).scopes@, old(self).current_scope as int, name@)->0;
                    &&& position_from(old(self).scopes@, old(self).current_scope as int, name@) is Some
                    &&& old(self).resolve(name@) == Some(*s)
                    &&& final(self).current_scope == old(self).current_scope
                    &&& final(self).scopes@.len() == old(self).scopes@.len()
                    &&& forall|k: int| 0 <= k < old(self).scopes@.len() && k != i ==> final(self).scopes@[k] == old(self).scopes@[k]
                    &&& final(self).scopes@[i]@ == old(self).scopes@[i]@.update(j, (old(self).scopes@[i]@[j].0, *final(s)))
                },
                None => old(self).resolve(name@) is None && *final(self) == *old(self),
            },
    {
        let key = owned(name);
        let mut i: usize = self.scopes.len();
        while i > 0
            invariant
                i <= self.current_scope + 1,
                self.wf(),
                key@ == name@,
                *self == *old(self),
                self.resolve(name@) == lookup_from(self.scopes@, i - 1, name@),
                position_from(self.scopes@, self.current_scope as int, name@) == position_from(self.scopes@, i - 1, name@),
            decreases i,
        {
            match assoc_find(&self.scopes[i - 1], &key) {
                Some(j) => {
                    proof {
                        lemma_assoc_found(self.scopes@[i - 1]@, j as int);
                        lemma_assoc_position(self.scopes@[i - 1]@, j as int);
                        assert(position_from(self.scopes@, self.current_scope as int, name@) == Some(((i - 1) as int, j as int)));
                        assert(self.resolve(name@) == Some(self.scopes@[i - 1]@[j as int].1));
                    }
                    let scope = &mut self.scopes[i - 1];
                    let entry = &mut scope[j];
                    return Some(&mut entry.1);
                },
                None => {
                    proof {
                        lemma_assoc_absent(self.scopes@[i - 1]@, key@);
                        lemma_assoc_position_absent(self.scopes@[i - 1]@, key@);
                    }
                },
            }
            i = i - 1;
        }
        None
    }

    /// Whether `name` resolves to a type: an alias, a struct or an enum.
    pub fn is_type(&self, name: &str) -> (r: bool)
        requires
            self.wf(),
        ensures
            r == match self.resolve(name@) {
                Some(s) => s.kind is TypeAlias || s.kind is Struct || s.kind is Enum,
                None => false,
            },
    {
        match self.lookup_symbol(name) {
            Some(symbol) => match symbol.kind {
                SymbolKind::TypeAlias { .. } | SymbolKind::Struct { .. } | SymbolKind::Enum { .. } => true,
                _ => false,
            },
            None => false,
        }
    }
}

/// The analyser's state.
pub struct SemanticAnalyzer {
    pub symbol_table: SymbolTable,
    pub borrow_checker: BorrowChecker,
    pub escape_analyzer: EscapeAnalyzer,
    pub loop_optimizer: LoopOptimizer,
    pub errors: Vec<SemanticError>,
    pub current_line: usize,
    pub current_column: usize,
}

impl SemanticAnalyzer {
    /// A fresh analyser at line 1, column 1.
    pub fn new() -> (r: SemanticAnalyzer)
        ensures
            r.symbol_table.fresh(),
            r.errors@.len() == 0,
            r.current_line == 1,
            r.current_column == 1,
            r.loop_optimizer.current_loop_depth == 0,
            r.loop_optimizer.loop_info@.len() == 0,
            r.escape_analyzer.escape_info@.len() == 0,
            !r.escape_analyzer.in_loop,
            !r.escape_analyzer.in_function,
            r.borrow_checker.lifetime_context.active_lifetimes@.len() == 0,
            r.borrow_checker.lifetime_context.lifetime_parameters@.len() == 0,
            r.borrow_checker.lifetime_context.borrow_tracker@.len() == 0,
            r.borrow_checker.errors@.len() == 0,
    {
        SemanticAnalyzer {
            symbol_table: SymbolTable::new(),
            borrow_checker: BorrowChecker::new(),
            escape_analyzer: EscapeAnalyzer::new(),
            loop_optimizer: LoopOptimizer::new(),
            errors: Vec::new(),
            current_line: 1,
            current_column: 1,
        }
    }
}


/// A copy of an error.
pub fn copy_semantic_error(e: &SemanticError) -> (r: SemanticError)
    ensures
        r == *e,
{
    match e {
        SemanticError::UndefinedIdentifier(s) => SemanticError::UndefinedIdentifier(s.clone()),
        SemanticError::Redeclaration(s) => SemanticError::Redeclaration(s.clone()),
        SemanticError::TypeMismatch { expected, found } => SemanticError::TypeMismatch { expected: expected.clone(), found: found.clone() },
        SemanticError::WrongArgumentCount { name, expected, found } => SemanticError::WrongArgumentCount { name: name.clone(), expected: *expected, found: *found },
        SemanticError::WrongArgumentType { name, arg_idx, expected, found } => SemanticError::WrongArgumentType {
            name: name.clone(),
            arg_idx: *arg_idx,
            expected: expected.clone(),
            found: found.clone(),
        },
        SemanticError::UndefinedStruct(s) => SemanticError::UndefinedStruct(s.clone()),
        SemanticError::UndefinedEnum(s) => SemanticError::UndefinedEnum(s.clone()),
        SemanticError::UndefinedField { struct_name, field_name } => SemanticError::UndefinedField { struct_name: struct_name.clone(), field_name: field_name.clone() },
        SemanticError::UndefinedVariant { enum_name, variant_name } => SemanticError::UndefinedVariant { enum_name: enum_name.clone(), variant_name: variant_name.clone() },
        SemanticError::ExpectedEnumVariant { expected, found } => SemanticError::ExpectedEnumVariant { expected: expected.clone(), found: found.clone() },
        SemanticError::CannotAssignToImmutable(s) => SemanticError::CannotAssignToImmutable(s.clone()),
        SemanticError::NotAFunction(s) => SemanticError::NotAFunction(s.clone()),
        SemanticError::NotAType(s) => SemanticError::NotAType(s.clone()),
        SemanticError::InvalidType(s) => SemanticError::InvalidType(s.clone()),
        SemanticError::UnsupportedFeature(s) => SemanticError::UnsupportedFeature(s.clone()),
        SemanticError::InvalidDotOperator(s) => SemanticError::InvalidDotOperator(s.clone()),
        SemanticError::InvalidIndexOperator(s) => SemanticError::InvalidIndexOperator(s.clone()),
        SemanticError::InvalidDeref => SemanticError::InvalidDeref,
        SemanticError::InvalidRef => SemanticError::InvalidRef,
        SemanticError::CannotReturnFromVoidFunction => SemanticError::CannotReturnFromVoidFunction,
        SemanticError::MissingReturnValue(s) => SemanticError::MissingReturnValue(s.clone()),
        SemanticError::InvalidMatchPattern => SemanticError::InvalidMatchPattern,
        SemanticError::DuplicateMatchPattern => SemanticError::DuplicateMatchPattern,
        SemanticError::NonExhaustiveMatch => SemanticError::NonExhaustiveMatch,
        SemanticError::InvalidPattern(s) => SemanticError::InvalidPattern(s.clone()),
        SemanticError::InvalidSyntax(s) => SemanticError::InvalidSyntax(s.clone()),
    }
}

/// A copy of a list of errors.
pub fn copy_semantic_errors(v: &Vec<SemanticError>) -> (r: Vec<SemanticError>)
    ensures
        r@ == v@,
{
    let mut r: Vec<SemanticError> = Vec::new();
    let mut i: usize = 0;
    while i < v.len()
        invariant
            i <= v@.len(),
            r@ == v@.take(i as int),
        decreases v@.len() - i,
    {
        let e = copy_semantic_error(&v[i]);
        r.push(e);
        proof {
            assert(v@.take(i + 1) =~= v@.take(i as int).push(v@[i as int]));
        }
        i = i + 1;
    }
    assert(v@.take(v@.len() as int) =~= v@);
    r
}

/// `int` or `float`.
pub open spec fn is_numeric(t: Seq<char>) -> bool {
    t == "int"@ || t == "float"@
}

/// The type of arithmetic on two numeric types: `float` if either is one.
pub open spec fn numeric_join(l: Seq<char>, r: Seq<char>) -> Seq<char> {
    if l == "float"@ || r == "float"@ {
        "float"@
    } else {
        "int"@
    }
}

/// The type of a literal.
pub open spec fn literal_type(l: Literal) -> Seq<char> {
    match l {
        Literal::Integer(_) => "int"@,
        Literal::Float(_) => "float"@,
        Literal::String(_) => "string"@,
        Literal::Boolean(_) => "bool"@,
        Literal::Null => "null"@,
        Literal::UnitLiteral(_, u) => "Unit[float, "@ + u@ + "]"@,
    }
}

/// The type an identifier has when it names `s`.
pub open spec fn symbol_type(name: Seq<char>, s: Symbol) -> Seq<char> {
    match s.kind {
        SymbolKind::Variable { ty, .. } => ty@,
        SymbolKind::Function { return_type, .. } => return_type@,
        SymbolKind::Struct { .. } => name,
        SymbolKind::Enum { .. } => name,
        SymbolKind::TypeAlias { ty } => ty@,
    }
}

/// The type of a unary operation on an operand of type `t`, or `None`
/// where the operator does not apply.
pub open spec fn unary_type(op: UnaryOperator, t: Seq<char>) -> Option<Seq<char>> {
    match op {
        UnaryOperator::Not => if t == "bool"@ { Some("bool"@) } else { None },
        UnaryOperator::Neg => if is_numeric(t) { Some(t) } else { None },
        UnaryOperator::Ref => Some("&"@ + t),
        UnaryOperator::Deref => if t.len() > 0 && t[0] == '&' { Some(t.drop_first()) } else { None },
    }
}

/// `e` is a type mismatch with the given expected and found texts.
pub open spec fn is_mismatch(e: SemanticError, expected: Seq<char>, found: Seq<char>) -> bool {
    e matches SemanticError::TypeMismatch { expected: x, found: y } && x@ == expected && y@ == found
}

/// The error a unary operation reports where `unary_type` is `None`.
pub open spec fn unary_fault(op: UnaryOperator, t: Seq<char>, e: SemanticError) -> bool {
    match op {
        UnaryOperator::Not => is_mismatch(e, "bool"@, t),
        UnaryOperator::Neg => is_mismatch(e, "int or float"@, t),
        UnaryOperator::Deref => e is InvalidDeref,
        UnaryOperator::Ref => false,
    }
}

/// The type of a binary operation on operands of types `l` and `r`, or
/// `None` where the operator does not apply to them.
pub open spec fn binary_type(op: BinaryOperator, l: Seq<char>, r: Seq<char>) -> Option<Seq<char>> {
    match op {
        BinaryOperator::Add => if l == "string"@ && r == "string"@ {
            Some("string"@)
        } else if is_numeric(l) && is_numeric(r) {
            Some(numeric_join(l, r))
        } else {
            None
        },
        BinaryOperator::Sub | BinaryOperator::Mul | BinaryOperator::Div | BinaryOperator::Mod =>
            if is_numeric(l) && is_numeric(r) { Some(numeric_join(l, r)) } else { None },
        BinaryOperator::Eq | BinaryOperator::Ne | BinaryOperator::Lt | BinaryOperator::Le
        | BinaryOperator::Gt | BinaryOperator::Ge => if l == r { Some("bool"@) } else { None },
        BinaryOperator::And | BinaryOperator::Or => if l == "bool"@ && r == "bool"@ { Some("bool"@) } else { None },
        BinaryOperator::Range | BinaryOperator::RangeInclusive =>
            if l == r && is_numeric(l) { Some("range"@) } else { None },
        BinaryOperator::Assign => None,
        BinaryOperator::AddAssign | BinaryOperator::SubAssign | BinaryOperator::MulAssign
        | BinaryOperator::DivAssign | BinaryOperator::ModAssign => Some(l),
    }
}

/// The typing of prefix operators: dereferencing a reference `&t` gives
/// back `t`, so taking a reference and dereferencing it is the identity;
/// negation keeps a number's type; `!` applies to `bool` alone.
pub proof fn lemma_unary_type_laws(t: Seq<char>)
    ensures
        unary_type(UnaryOperator::Deref, "&"@ + t) == Some(t),
        unary_type(UnaryOperator::Ref, t) matches Some(rt) && unary_type(UnaryOperator::Deref, rt) == Some(t),
        is_numeric(t) ==> unary_type(UnaryOperator::Neg, t) == Some(t),
        !is_numeric(t) ==> unary_type(UnaryOperator::Neg, t) is None,
        unary_type(UnaryOperator::Not, t) is Some <==> t == "bool"@,
        unary_type(UnaryOperator::Not, t) is Some ==> unary_type(UnaryOperator::Not, t) == Some("bool"@),
{
    reveal_strlit("&");
    assert(("&"@ + t).drop_first() =~= t);
    assert(("&"@ + t)[0] == '&');
}

/// Joining the branch types of an `if` does not depend on the order of
/// the branches; a missing branch (`void`) gives the other's type, equal
/// types give that type, and different non-`void` types do not join.
pub proof fn lemma_branch_join_laws(t: Seq<char>, e: Seq<char>)
    ensures
        branch_join(t, e) == branch_join(e, t),
        branch_join(t, "void"@) == Some(t),
        branch_join(t, t) == Some(t),
        branch_join(t, e) is None <==> (t != e && t != "void"@ && e != "void"@),
        branch_join(t, e) matches Some(j) ==> (j == t || j == e) && j != "void"@ || (t == "void"@ && e == "void"@),
{
}

/// An arithmetic operator: `+ - * / %`.
pub open spec fn is_arithmetic(op: BinaryOperator) -> bool {
    op == BinaryOperator::Add || op == BinaryOperator::Sub || op == BinaryOperator::Mul || op == BinaryOperator::Div
        || op == BinaryOperator::Mod
}

/// The typing of binary operations: arithmetic on two numbers is defined
/// and is `float` exactly when either operand is `float`, and `int` exactly
/// when both are `int`; arithmetic on a non-number (other than joining two
/// strings with `+`) is an error; comparisons give `bool` exactly when the
/// operand types agree; and apart from the compound assignments, whose
/// type is the left operand's, swapping the operands never changes the
/// type.
pub proof fn lemma_binary_type_laws(op: BinaryOperator, l: Seq<char>, r: Seq<char>)
    ensures
        is_arithmetic(op) && is_numeric(l) && is_numeric(r) ==> binary_type(op, l, r) is Some && (binary_type(op, l, r)
            == Some("float"@) <==> (l == "float"@ || r == "float"@)) && (binary_type(op, l, r) == Some("int"@) <==> (l
            == "int"@ && r == "int"@)),
        is_arithmetic(op) && !(op == BinaryOperator::Add && l == "string"@ && r == "string"@) && !(is_numeric(l)
            && is_numeric(r)) ==> binary_type(op, l, r) is None,
        (op == BinaryOperator::Eq || op == BinaryOperator::Ne || op == BinaryOperator::Lt || op == BinaryOperator::Le
            || op == BinaryOperator::Gt || op == BinaryOperator::Ge) ==> (binary_type(op, l, r) == Some("bool"@) <==> l
            == r) && (binary_type(op, l, r) is Some ==> binary_type(op, l, r) == Some("bool"@)),
        !(op == BinaryOperator::AddAssign || op == BinaryOperator::SubAssign || op == BinaryOperator::MulAssign
            || op == BinaryOperator::DivAssign || op == BinaryOperator::ModAssign) ==> binary_type(op, l, r)
            == binary_type(op, r, l),
{
    reveal_strlit("float");
    reveal_strlit("int");
    reveal_strlit("string");
    reveal_strlit("bool");
    assert("float"@.len() != "int"@.len());
    assert("float"@.len() != "string"@.len());
    assert("int"@.len() != "string"@.len());
}

/// The error a binary operation reports where `binary_type` is `None`.
pub open spec fn binary_fault(op: BinaryOperator, l: Seq<char>, r: Seq<char>, e: SemanticError) -> bool {
    let both = l + ", "@ + r;
    match op {
        BinaryOperator::Add => is_mismatch(e, "int, float, or string"@, both),
        BinaryOperator::Sub | BinaryOperator::Mul | BinaryOperator::Div | BinaryOperator::Mod
        | BinaryOperator::Range | BinaryOperator::RangeInclusive => is_mismatch(e, "int or float"@, both),
        BinaryOperator::Eq | BinaryOperator::Ne | BinaryOperator::Lt | BinaryOperator::Le
        | BinaryOperator::Gt | BinaryOperator::Ge => is_mismatch(e, l, r),
        BinaryOperator::And | BinaryOperator::Or => is_mismatch(e, "bool"@, both),
        BinaryOperator::Assign => e matches SemanticError::InvalidSyntax(m) && m@ == "\u{8d4b}\u{503c}\u{64cd}\u{4f5c}\u{7b26}\u{4e0d}\u{80fd}\u{76f4}\u{63a5}\u{7528}\u{4e8e}\u{4e8c}\u{5143}\u{64cd}\u{4f5c}"@,
        _ => false,
    }
}

/// `after` is `before` with one error `e` more, and `r` reports all of
/// them.
pub open spec fn recorded(before: Seq<SemanticError>, after: Seq<SemanticError>, r: Result<String, Vec<SemanticError>>) -> bool {
    &&& after.len() == before.len() + 1
    &&& after.drop_last() == before
    &&& r matches Err(all) && all@ == after
}

/// The type of the first field named `name` in `fields`.
pub open spec fn field_type(fields: Seq<StructField>, name: Seq<char>) -> Option<Seq<char>>
    decreases fields.len(),
{
    if fields.len() == 0 {
        None
    } else if fields[0].name@ == name {
        Some(fields[0].ty@)
    } else {
        field_type(fields.drop_first(), name)
    }
}

proof fn lemma_field_type_append(fields: Seq<StructField>, k: int, name: Seq<char>)
    requires
        0 <= k < fields.len(),
    ensures
        field_type(fields.take(k + 1), name) == match field_type(fields.take(k), name) {
            Some(t) => Some(t),
            None => if fields[k].name@ == name { Some(fields[k].ty@) } else { None },
        },
    decreases k,
{
    let a = fields.take(k + 1);
    let b = fields.take(k);
    assert(a[0] == fields[0]);
    if k > 0 {
        assert(b[0] == fields[0]);
        lemma_field_type_append(fields.drop_first(), k - 1, name);
        assert(a.drop_first() =~= fields.drop_first().take(k));
        assert(b.drop_first() =~= fields.drop_first().take(k - 1));
    } else {
        assert(b =~= Seq::<StructField>::empty());
        assert(a.drop_first() =~= Seq::<StructField>::empty());
    }
}

proof fn lemma_field_type_prefix(fields: Seq<StructField>, k: int, name: Seq<char>)
    requires
        0 <= k <= fields.len(),
        field_type(fields.take(k), name) is Some,
    ensures
        field_type(fields, name) == field_type(fields.take(k), name),
    decreases k,
{
    if fields.len() > 0 && fields[0].name@ != name {
        assert(fields.take(k).drop_first() =~= fields.drop_first().take(k - 1));
        lemma_field_type_prefix(fields.drop_first(), k - 1, name);
    }
}

/// Stepping the search for a field over index `k`.
proof fn lemma_field_type_step(fields: Seq<StructField>, k: int, name: Seq<char>)
    requires
        0 <= k < fields.len(),
        field_type(fields.take(k), name) is None,
    ensures
        fields[k].name@ != name ==> field_type(fields.take(k + 1), name) is None,
{
    lemma_field_type_append(fields, k, name);
}

/// The search for a field stops at index `k`.
proof fn lemma_field_type_found(fields: Seq<StructField>, k: int, name: Seq<char>)
    requires
        0 <= k < fields.len(),
        field_type(fields.take(k), name) is None,
        fields[k].name@ == name,
    ensures
        field_type(fields, name) == Some(fields[k].ty@),
{
    lemma_field_type_append(fields, k, name);
    lemma_field_type_prefix(fields, k + 1, name);
}

/// The first index from `k` on whose text differs from `t`.
pub open spec fn first_other_from(ts: Seq<Seq<char>>, t: Seq<char>, k: int) -> Option<int>
    decreases ts.len() - k,
{
    if k < 0 || k >= ts.len() {
        None
    } else if ts[k] != t {
        Some(k)
    } else {
        first_other_from(ts, t, k + 1)
    }
}

/// The first index after the first whose text differs from `t`.
pub open spec fn first_other(ts: Seq<Seq<char>>, t: Seq<char>) -> Option<int> {
    first_other_from(ts, t, 1)
}

proof fn lemma_first_other_here(ts: Seq<Seq<char>>, t: Seq<char>, k: int)
    requires
        0 <= k < ts.len(),
        ts[k] != t,
    ensures
        first_other_from(ts, t, k) == Some(k),
{
}

proof fn lemma_first_other_skip(ts: Seq<Seq<char>>, t: Seq<char>, k: int)
    requires
        0 <= k < ts.len(),
        ts[k] == t,
    ensures
        first_other_from(ts, t, k) == first_other_from(ts, t, k + 1),
{
}

proof fn lemma_first_other_end(ts: Seq<Seq<char>>, t: Seq<char>, k: int)
    requires
        k >= ts.len(),
    ensures
        first_other_from(ts, t, k) is None,
{
}

/// The left side of an assignment, its parts already typed: a variable by
/// name, a field of a value of a struct type, an element at an index of a
/// type, or anything else.
pub enum AssignTarget {
    Variable(String),
    Field { struct_type: String, field: String },
    Element { index_type: String },
    Other,
}

/// An assignment of a value of type `right` to `target` is allowed: to a
/// mutable variable declared with that type or `auto`, to a field of that
/// type, or to an element at an `int` index.
pub open spec fn assign_allowed(table: SymbolTable, target: AssignTarget, right: Seq<char>) -> bool {
    match target {
        AssignTarget::Variable(name) => match table.resolve(name@) {
            Some(s) => s.kind matches SymbolKind::Variable { mutable, ty } && mutable && (ty@ == right || ty@ == "auto"@),
            None => false,
        },
        AssignTarget::Field { struct_type, field } => match table.resolve(struct_type@) {
            Some(s) => s.kind matches SymbolKind::Struct { fields } && field_type(fields@, field@) == Some(right),
            None => false,
        },
        AssignTarget::Element { index_type } => index_type@ == "int"@,
        AssignTarget::Other => false,
    }
}

/// The error recorded for an assignment that is not allowed.
pub open spec fn assign_fault(table: SymbolTable, target: AssignTarget, right: Seq<char>, e: SemanticError) -> bool {
    match target {
        AssignTarget::Variable(name) => match table.resolve(name@) {
            Some(s) if s.kind is Variable => if !s.kind->Variable_mutable {
                e matches SemanticError::CannotAssignToImmutable(n) && n@ == name@
            } else {
                is_mismatch(e, s.kind->Variable_ty@, right)
            },
            _ => e matches SemanticError::UndefinedIdentifier(n) && n@ == name@,
        },
        AssignTarget::Field { struct_type, field } => match table.resolve(struct_type@) {
            Some(s) if s.kind is Struct => match field_type(s.kind->Struct_fields@, field@) {
                Some(t) => is_mismatch(e, t, right),
                None => e matches SemanticError::UndefinedField { struct_name, field_name }
                    && struct_name@ == struct_type@ && field_name@ == field@,
            },
            _ => e matches SemanticError::UndefinedStruct(n) && n@ == struct_type@,
        },
        AssignTarget::Element { index_type } => is_mismatch(e, "int"@, index_type@),
        AssignTarget::Other => e matches SemanticError::InvalidSyntax(m)
            && m@ == "\u{8d4b}\u{503c}\u{64cd}\u{4f5c}\u{7b26}\u{5de6}\u{4fa7}\u{5fc5}\u{987b}\u{662f}\u{53ef}\u{4fee}\u{6539}\u{7684}\u{8868}\u{8fbe}\u{5f0f}"@,
    }
}

/// The type of an `if` whose branches have types `t` and `e`: their common
/// type, or the other one where one of them is `void`.
pub open spec fn branch_join(t: Seq<char>, e: Seq<char>) -> Option<Seq<char>> {
    if t == e {
        Some(t)
    } else if t == "void"@ {
        Some(e)
    } else if e == "void"@ {
        Some(t)
    } else {
        None
    }
}

/// What is called: a name, or a value of a type.
pub enum CallTarget {
    Named(String),
    Value(String),
}

/// The first index from `k` at which `a` and `b` differ.
pub open spec fn first_diff_from(a: Seq<Seq<char>>, b: Seq<Seq<char>>, k: int) -> Option<int>
    decreases a.len() - k,
{
    if k < 0 || k >= a.len() {
        None
    } else if a[k] != b[k] {
        Some(k)
    } else {
        first_diff_from(a, b, k + 1)
    }
}

/// The type of a call with arguments of types `args`, where it is well
/// typed.
pub open spec fn call_type(table: SymbolTable, callee: CallTarget, args: Seq<Seq<char>>) -> Option<Seq<char>> {
    match callee {
        CallTarget::Named(name) => match table.resolve(name@) {
            Some(s) => match s.kind {
                SymbolKind::Function { params, return_type } => {
                    let ps = params@.map_values(|p: (String, String)| p.1@);
                    if ps.len() == args.len() && first_diff_from(ps, args, 0) is None {
                        Some(return_type@)
                    } else {
                        None
                    }
                },
                _ => None,
            },
            None => None,
        },
        CallTarget::Value(_) => None,
    }
}

/// The error recorded for a call that is not well typed.
pub open spec fn call_fault(table: SymbolTable, callee: CallTarget, args: Seq<Seq<char>>, e: SemanticError) -> bool {
    match callee {
        CallTarget::Named(name) => match table.resolve(name@) {
            Some(s) => match s.kind {
                SymbolKind::Function { params, return_type } => {
                    let ps = params@.map_values(|p: (String, String)| p.1@);
                    if ps.len() != args.len() {
                        e matches SemanticError::WrongArgumentCount { name: n, expected, found }
                            && n@ == name@ && expected == ps.len() && found == args.len()
                    } else {
                        match first_diff_from(ps, args, 0) {
                            Some(i) => e matches SemanticError::WrongArgumentType { name: n, arg_idx, expected, found }
                                && n@ == name@ && arg_idx == i && expected@ == ps[i] && found@ == args[i],
                            None => false,
                        }
                    }
                },
                _ => e matches SemanticError::NotAFunction(n) && n@ == name@,
            },
            None => e matches SemanticError::UndefinedIdentifier(n) && n@ == name@,
        },
        CallTarget::Value(t) => e matches SemanticError::NotAFunction(n) && n@ == t@,
    }
}

/// A type text written as a reference: `&...` or `ref ...`.
pub open spec fn is_ref_text(t: Seq<char>) -> bool {
    has_prefix(t, "&"@) || has_prefix(t, "ref "@)
}

/// `name` resolves to a type: an alias, a struct or an enum.
pub open spec fn names_type(table: SymbolTable, name: Seq<char>) -> bool {
    match table.resolve(name) {
        Some(s) => s.kind is TypeAlias || s.kind is Struct || s.kind is Enum,
        None => false,
    }
}

/// `name` is defined in the current scope.
pub open spec fn defined_here(table: SymbolTable, name: Seq<char>) -> bool {
    assoc_lookup(table.scopes@[table.current_scope as int]@, name) is Some
}

/// The escape table after a global variable `name` is declared: marked
/// escaping where it was already known to live on the heap, else as it was.
pub open spec fn escape_marked(before: Seq<(String, EscapeInfo)>, after: Seq<(String, EscapeInfo)>, name: Seq<char>) -> bool {
    let key = escape_key(name, "global"@);
    let i = info_of(before, key);
    if i.escapes || i.captured_by_ref || i.address_taken {
        &&& assoc_lookup(after, key) == Some(EscapeInfo { escapes: true, ..i })
        &&& forall|k: Seq<char>| k != key ==> assoc_lookup(after, k) == assoc_lookup(before, k)
    } else {
        after == before
    }
}

/// `after` is `before` with one error more, and `r` reports all of them.
pub open spec fn recorded_unit(before: Seq<SemanticError>, after: Seq<SemanticError>, r: Result<(), Vec<SemanticError>>) -> bool {
    &&& after.len() == before.len() + 1
    &&& after.drop_last() == before
    &&& r matches Err(all) && all@ == after
}

/// The first index from `k` on of a field whose type does not name a type.
pub open spec fn first_bad_field(table: SymbolTable, fields: Seq<StructField>, k: int) -> Option<int>
    decreases fields.len() - k,
{
    if k < 0 || k >= fields.len() {
        None
    } else if !names_type(table, fields[k].ty@) {
        Some(k)
    } else {
        first_bad_field(table, fields, k + 1)
    }
}

/// The type text of the first field, over the variants from index `k` on,
/// whose type does not name a type.
pub open spec fn first_bad_variant_type(table: SymbolTable, variants: Seq<(String, Option<Vec<StructField>>)>, k: int) -> Option<Seq<char>>
    decreases variants.len() - k,
{
    if k < 0 || k >= variants.len() {
        None
    } else {
        match variants[k].1 {
            Some(fs) => match first_bad_field(table, fs@, 0) {
                Some(j) => Some(fs@[j].ty@),
                None => first_bad_variant_type(table, variants, k + 1),
            },
            None => first_bad_variant_type(table, variants, k + 1),
        }
    }
}

/// The variants of an enum, with their field lists by view.
pub open spec fn variants_view(vs: Seq<(String, Option<Vec<StructField>>)>) -> Seq<(String, Option<Seq<StructField>>)> {
    vs.map_values(|v: (String, Option<Vec<StructField>>)| (v.0, match v.1 { Some(f) => Some(f@), None => None }))
}

/// A copy of a list of fields.
pub fn copy_fields(fields: &[StructField]) -> (r: Vec<StructField>)
    ensures
        r@ == fields@,
{
    let mut copied: Vec<StructField> = Vec::new();
    let mut k: usize = 0;
    while k < fields.len()
        invariant
            k <= fields@.len(),
            copied@ == fields@.take(k as int),
        decreases fields@.len() - k,
    {
        copied.push(StructField { name: fields[k].name.clone(), ty: fields[k].ty.clone() });
        proof {
            assert(fields@.take(k + 1) =~= fields@.take(k as int).push(fields@[k as int]));
        }
        k = k + 1;
    }
    assert(fields@.take(k as int) =~= fields@);
    copied
}

impl SemanticAnalyzer {
    /// Records `e` and reports every error recorded so far.
    fn fail(&mut self, e: SemanticError) -> (r: Result<String, Vec<SemanticError>>)
        ensures
            recorded(old(self).errors@, final(self).errors@, r),
            final(self).errors@.last() == e,
            final(self).symbol_table == old(self).symbol_table,
    {
        self.errors.push(e);
        proof {
            assert(self.errors@.drop_last() =~= old(self).errors@);
        }
        Err(copy_semantic_errors(&self.errors))
    }

    /// The type of a literal.
    pub fn analyze_literal(&self, lit: &Literal) -> (r: Result<String, Vec<SemanticError>>)
        ensures
            r matches Ok(t) && t@ == literal_type(*lit),
    {
        proof {
            reveal_strlit("int");
            reveal_strlit("float");
            reveal_strlit("string");
            reveal_strlit("bool");
            reveal_strlit("null");
            reveal_strlit("Unit[float, ");
            reveal_strlit("]");
        }
        match lit {
            Literal::Integer(_) => Ok(owned("int")),
            Literal::Float(_) => Ok(owned("float")),
            Literal::String(_) => Ok(owned("string")),
            Literal::Boolean(_) => Ok(owned("bool")),
            Literal::Null => Ok(owned("null")),
            Literal::UnitLiteral(_, unit) => {
                let mut t = owned("Unit[float, ");
                string_push_str(&mut t, unit.as_str());
                string_push_str(&mut t, "]");
                Ok(t)
            },
        }
    }

    /// The type of the symbol `name` names, or an `UndefinedIdentifier`
    /// error where no scope defines it.
    pub fn analyze_identifier(&mut self, name: &str) -> (r: Result<String, Vec<SemanticError>>)
        requires
            old(self).symbol_table.wf(),
        ensures
            final(self).symbol_table == old(self).symbol_table,
            match old(self).symbol_table.resolve(name@) {
                Some(s) => (r matches Ok(t) && t@ == symbol_type(name@, s)) && final(self).errors@ == old(self).errors@,
                None => recorded(old(self).errors@, final(self).errors@, r)
                    && (final(self).errors@.last() matches SemanticError::UndefinedIdentifier(n) && n@ == name@),
            },
    {
        match self.symbol_table.lookup_symbol(name) {
            Some(symbol) => {
                let t = match &symbol.kind {
                    SymbolKind::Variable { ty, .. } => ty.clone(),
                    SymbolKind::Function { return_type, .. } => return_type.clone(),
                    SymbolKind::Struct { .. } => owned(name),
                    SymbolKind::Enum { .. } => owned(name),
                    SymbolKind::TypeAlias { ty } => ty.clone(),
                };
                Ok(t)
            },
            None => self.fail(SemanticError::UndefinedIdentifier(owned(name))),
        }
    }

    /// The type of applying `op` to an operand of type `operand`; where the
    /// operator does not apply, the error is recorded and every error so
    /// far is reported.
    pub fn analyze_unary_op(&mut self, op: &UnaryOperator, operand: String) -> (r: Result<String, Vec<SemanticError>>)
        ensures
            final(self).symbol_table == old(self).symbol_table,
            match unary_type(*op, operand@) {
                Some(t) => (r matches Ok(x) && x@ == t) && final(self).errors@ == old(self).errors@,
                None => recorded(old(self).errors@, final(self).errors@, r)
                    && unary_fault(*op, operand@, final(self).errors@.last()),
            },
    {
        proof {
            reveal_strlit("bool");
            reveal_strlit("int");
            reveal_strlit("float");
            reveal_strlit("int or float");
            reveal_strlit("&");
        }
        match op {
            UnaryOperator::Not => {
                if !str_eq(operand.as_str(), "bool") {
                    return self.fail(SemanticError::TypeMismatch { expected: owned("bool"), found: operand });
                }
                Ok(owned("bool"))
            },
            UnaryOperator::Neg => {
                if !str_eq(operand.as_str(), "int") && !str_eq(operand.as_str(), "float") {
                    return self.fail(SemanticError::TypeMismatch { expected: owned("int or float"), found: operand });
                }
                Ok(operand)
            },
            UnaryOperator::Ref => {
                let mut t = owned("&");
                string_push_str(&mut t, operand.as_str());
                Ok(t)
            },
            UnaryOperator::Deref => {
                let cs = chars_of(operand.as_str());
                if cs.len() > 0 && cs[0] == '&' {
                    let mut rest: Vec<char> = Vec::new();
                    let mut i: usize = 1;
                    while i < cs.len()
                        invariant
                            1 <= i <= cs@.len(),
                            rest@ == cs@.subrange(1, i as int),
                        decreases cs@.len() - i,
                    {
                        rest.push(cs[i]);
                        proof {
                            assert(cs@.subrange(1, i + 1) =~= cs@.subrange(1, i as int).push(cs@[i as int]));
                        }
                        i = i + 1;
                    }
                    assert(rest@ =~= operand@.drop_first());
                    Ok(string_from_chars(&rest))
                } else {
                    self.fail(SemanticError::InvalidDeref)
                }
            },
        }
    }

    /// The type of applying `op` to operands of types `left` and `right`;
    /// where the operator does not apply to them, the error is recorded and
    /// every error so far is reported.
    pub fn analyze_binary_op(&mut self, left: String, op: &BinaryOperator, right: String) -> (r: Result<String, Vec<SemanticError>>)
        ensures
            final(self).symbol_table == old(self).symbol_table,
            match binary_type(*op, left@, right@) {
                Some(t) => (r matches Ok(x) && x@ == t) && final(self).errors@ == old(self).errors@,
                None => recorded(old(self).errors@, final(self).errors@, r)
                    && binary_fault(*op, left@, right@, final(self).errors@.last()),
            },
    {
        proof {
            reveal_strlit("bool");
            reveal_strlit("int");
            reveal_strlit("float");
            reveal_strlit("string");
            reveal_strlit("range");
            reveal_strlit(", ");
            reveal_strlit("int or float");
            reveal_strlit("int, float, or string");
        }
        let l_num = str_eq(left.as_str(), "int") || str_eq(left.as_str(), "float");
        let r_num = str_eq(right.as_str(), "int") || str_eq(right.as_str(), "float");
        let any_float = str_eq(left.as_str(), "float") || str_eq(right.as_str(), "float");
        let mut both = left.clone();
        string_push_str(&mut both, ", ");
        string_push_str(&mut both, right.as_str());
        let joined = if any_float { owned("float") } else { owned("int") };
        match op {
            BinaryOperator::Add => {
                if str_eq(left.as_str(), "string") && str_eq(right.as_str(), "string") {
                    Ok(owned("string"))
                } else if l_num && r_num {
                    Ok(joined)
                } else {
                    self.fail(SemanticError::TypeMismatch { expected: owned("int, float, or string"), found: both })
                }
            },
            BinaryOperator::Sub | BinaryOperator::Mul | BinaryOperator::Div | BinaryOperator::Mod => {
                if l_num && r_num {
                    Ok(joined)
                } else {
                    self.fail(SemanticError::TypeMismatch { expected: owned("int or float"), found: both })
                }
            },
            BinaryOperator::Eq | BinaryOperator::Ne | BinaryOperator::Lt | BinaryOperator::Le
            | BinaryOperator::Gt | BinaryOperator::Ge => {
                if str_eq(left.as_str(), right.as_str()) {
                    Ok(owned("bool"))
                } else {
                    self.fail(SemanticError::TypeMismatch { expected: left, found: right })
                }
            },
            BinaryOperator::And | BinaryOperator::Or => {
                if str_eq(left.as_str(), "bool") && str_eq(right.as_str(), "bool") {
                    Ok(owned("bool"))
                } else {
                    self.fail(SemanticError::TypeMismatch { expected: owned("bool"), found: both })
                }
            },
            BinaryOperator::Range | BinaryOperator::RangeInclusive => {
                if str_eq(left.as_str(), right.as_str()) && l_num {
                    Ok(owned("range"))
                } else {
                    self.fail(SemanticError::TypeMismatch { expected: owned("int or float"), found: both })
                }
            },
            BinaryOperator::Assign => {
                let m = owned("\u{8d4b}\u{503c}\u{64cd}\u{4f5c}\u{7b26}\u{4e0d}\u{80fd}\u{76f4}\u{63a5}\u{7528}\u{4e8e}\u{4e8c}\u{5143}\u{64cd}\u{4f5c}");
                self.fail(SemanticError::InvalidSyntax(m))
            },
            BinaryOperator::AddAssign | BinaryOperator::SubAssign | BinaryOperator::MulAssign
            | BinaryOperator::DivAssign | BinaryOperator::ModAssign => Ok(left),
        }
    }

    /// Indexing with an index of type `index`: `auto` where the index is an
    /// `int`, else a type mismatch.
    pub fn analyze_index(&mut self, index: String) -> (r: Result<String, Vec<SemanticError>>)
        ensures
            final(self).symbol_table == old(self).symbol_table,
            if index@ == "int"@ {
                (r matches Ok(x) && x@ == "auto"@) && final(self).errors@ == old(self).errors@
            } else {
                recorded(old(self).errors@, final(self).errors@, r) && is_mismatch(final(self).errors@.last(), "int"@, index@)
            },
    {
        proof {
            reveal_strlit("int");
            reveal_strlit("auto");
        }
        if !str_eq(index.as_str(), "int") {
            return self.fail(SemanticError::TypeMismatch { expected: owned("int"), found: index });
        }
        Ok(owned("auto"))
    }

    /// The type of field `field` of a value of type `ty`: the field's type
    /// where `ty` names a struct that has it; an `UndefinedField` error where
    /// the struct lacks it; an `InvalidDotOperator` error where `ty` names no
    /// struct.
    pub fn analyze_field_access(&mut self, ty: String, field: &str) -> (r: Result<String, Vec<SemanticError>>)
        requires
            old(self).symbol_table.wf(),
        ensures
            final(self).symbol_table == old(self).symbol_table,
            match old(self).symbol_table.resolve(ty@) {
                Some(s) if s.kind is Struct => match field_type(s.kind->fields@, field@) {
                    Some(t) => (r matches Ok(x) && x@ == t) && final(self).errors@ == old(self).errors@,
                    None => recorded(old(self).errors@, final(self).errors@, r)
                        && (final(self).errors@.last() matches SemanticError::UndefinedField { struct_name, field_name }
                            && struct_name@ == ty@ && field_name@ == field@),
                },
                _ => recorded(old(self).errors@, final(self).errors@, r)
                    && (final(self).errors@.last() matches SemanticError::InvalidDotOperator(t) && t@ == ty@),
            },
    {
        let mut is_struct = false;
        match self.symbol_table.lookup_symbol(ty.as_str()) {
            Some(symbol) => match &symbol.kind {
                SymbolKind::Struct { fields } => {
                    is_struct = true;
                    let mut k: usize = 0;
                    while k < fields.len()
                        invariant
                            k <= fields@.len(),
                            field_type(fields@.take(k as int), field@) is None,
                            old(self).symbol_table.resolve(ty@) == Some(*symbol),
                            symbol.kind == (SymbolKind::Struct { fields: *fields }),
                            self.symbol_table == old(self).symbol_table,
                            self.errors@ == old(self).errors@,
                        decreases fields@.len() - k,
                    {
                        if str_eq(fields[k].name.as_str(), field) {
                            proof {
                                lemma_field_type_found(fields@, k as int, field@);
                            }
                            let t = fields[k].ty.clone();
                            assert(t@ == field_type(symbol.kind->fields@, field@)->0);
                            return Ok(t);
                        }
                        proof {
                            lemma_field_type_step(fields@, k as int, field@);
                        }
                        k = k + 1;
                    }
                    assert(fields@.take(k as int) =~= fields@);
                },
                _ => {},
            },
            None => {},
        }
        if is_struct {
            let f = owned(field);
            self.fail(SemanticError::UndefinedField { struct_name: ty, field_name: f })
        } else {
            self.fail(SemanticError::InvalidDotOperator(ty))
        }
    }

    /// A range from a value of type `start` to one of type `end`: `range`
    /// where both are the same numeric type; else a type mismatch.
    pub fn analyze_range(&mut self, start: String, end: String) -> (r: Result<String, Vec<SemanticError>>)
        ensures
            final(self).symbol_table == old(self).symbol_table,
            if start@ != end@ {
                recorded(old(self).errors@, final(self).errors@, r) && is_mismatch(final(self).errors@.last(), start@, end@)
            } else if !is_numeric(start@) {
                recorded(old(self).errors@, final(self).errors@, r) && is_mismatch(final(self).errors@.last(), "int or float"@, start@)
            } else {
                (r matches Ok(x) && x@ == "range"@) && final(self).errors@ == old(self).errors@
            },
    {
        proof {
            reveal_strlit("int");
            reveal_strlit("float");
            reveal_strlit("range");
            reveal_strlit("int or float");
        }
        if !str_eq(start.as_str(), end.as_str()) {
            return self.fail(SemanticError::TypeMismatch { expected: start, found: end });
        }
        if !str_eq(start.as_str(), "int") && !str_eq(start.as_str(), "float") {
            return self.fail(SemanticError::TypeMismatch { expected: owned("int or float"), found: start });
        }
        Ok(owned("range"))
    }

    /// An array whose items have the types `items`, in order: `auto` for no
    /// items, `List[t]` where every item has the first item's type `t`, else
    /// a type mismatch between `t` and the first item of another type.
    pub fn analyze_array(&mut self, items: &Vec<String>) -> (r: Result<String, Vec<SemanticError>>)
        ensures
            final(self).symbol_table == old(self).symbol_table,
            items@.len() == 0 ==> (r matches Ok(x) && x@ == "auto"@) && final(self).errors@ == old(self).errors@,
            items@.len() > 0 ==> match first_other(items@.map_values(|t: String| t@), items@[0]@) {
                None => (r matches Ok(x) && x@ == "List["@ + items@[0]@ + "]"@) && final(self).errors@ == old(self).errors@,
                Some(j) => recorded(old(self).errors@, final(self).errors@, r)
                    && is_mismatch(final(self).errors@.last(), items@[0]@, items@[j]@),
            },
    {
        proof {
            reveal_strlit("auto");
            reveal_strlit("List[");
            reveal_strlit("]");
        }
        if items.len() == 0 {
            return Ok(owned("auto"));
        }
        let ghost ts = items@.map_values(|t: String| t@);
        let mut k: usize = 1;
        while k < items.len()
            invariant
                1 <= k <= items@.len(),
                ts == items@.map_values(|t: String| t@),
                first_other_from(ts, ts[0], 1) == first_other_from(ts, ts[0], k as int),
                self.symbol_table == old(self).symbol_table,
                self.errors@ == old(self).errors@,
            decreases items@.len() - k,
        {
            if !str_eq(items[k].as_str(), items[0].as_str()) {
                proof {
                    lemma_first_other_here(ts, ts[0], k as int);
                }
                let expected = items[0].clone();
                let found = items[k].clone();
                return self.fail(SemanticError::TypeMismatch { expected, found });
            }
            proof {
                lemma_first_other_skip(ts, ts[0], k as int);
            }
            k = k + 1;
        }
        proof {
            lemma_first_other_end(ts, ts[0], k as int);
        }
        let mut t = owned("List[");
        string_push_str(&mut t, items[0].as_str());
        string_push_str(&mut t, "]");
        Ok(t)
    }

    /// Assigning a value of type `right` to `target`, whose own parts have
    /// already been typed: the value's type where the assignment is allowed,
    /// else the error it records (see `assign_fault`).
    pub fn analyze_assign(&mut self, target: &AssignTarget, right: String) -> (r: Result<String, Vec<SemanticError>>)
        requires
            old(self).symbol_table.wf(),
        ensures
            final(self).symbol_table == old(self).symbol_table,
            if assign_allowed(old(self).symbol_table, *target, right@) {
                (r matches Ok(x) && x@ == right@) && final(self).errors@ == old(self).errors@
            } else {
                recorded(old(self).errors@, final(self).errors@, r)
                    && assign_fault(old(self).symbol_table, *target, right@, final(self).errors@.last())
            },
    {
        proof {
            reveal_strlit("auto");
            reveal_strlit("int");
        }
        match target {
            AssignTarget::Variable(name) => {
                let mut verdict: u8 = 0;
                let mut declared = owned("");
                match self.symbol_table.lookup_symbol(name.as_str()) {
                    Some(symbol) => match &symbol.kind {
                        SymbolKind::Variable { mutable, ty } => {
                            if !*mutable {
                                verdict = 1;
                            } else if !str_eq(ty.as_str(), right.as_str()) && !str_eq(ty.as_str(), "auto") {
                                verdict = 2;
                                declared = ty.clone();
                            } else {
                                verdict = 3;
                            }
                        },
                        _ => {},
                    },
                    None => {},
                }
                if verdict == 1 {
                    self.fail(SemanticError::CannotAssignToImmutable(name.clone()))
                } else if verdict == 2 {
                    self.fail(SemanticError::TypeMismatch { expected: declared, found: right })
                } else if verdict == 3 {
                    Ok(right)
                } else {
                    self.fail(SemanticError::UndefinedIdentifier(name.clone()))
                }
            },
            AssignTarget::Field { struct_type, field } => {
                let mut verdict: u8 = 0;
                let mut declared = owned("");
                match self.symbol_table.lookup_symbol(struct_type.as_str()) {
                    Some(symbol) => match &symbol.kind {
                        SymbolKind::Struct { fields } => {
                            verdict = 1;
                            let mut k: usize = 0;
                            while k < fields.len()
                                invariant_except_break
                                    verdict == 1,
                                    field_type(fields@.take(k as int), field@) is None,
                                invariant
                                    k <= fields@.len(),
                                    old(self).symbol_table.resolve(struct_type@) == Some(*symbol),
                                    symbol.kind == (SymbolKind::Struct { fields: *fields }),
                                    self.symbol_table == old(self).symbol_table,
                                    self.errors@ == old(self).errors@,
                                ensures
                                    verdict == 1 ==> k == fields@.len() && field_type(fields@.take(k as int), field@) is None,
                                    verdict != 1 ==> field_type(fields@, field@) == Some(declared@)
                                        && (verdict == 3 <==> declared@ == right@) && (verdict == 2 || verdict == 3),
                                decreases fields@.len() - k,
                            {
                                if str_eq(fields[k].name.as_str(), field.as_str()) {
                                    proof {
                                        lemma_field_type_found(fields@, k as int, field@);
                                    }
                                    declared = fields[k].ty.clone();
                                    verdict = if str_eq(declared.as_str(), right.as_str()) { 3 } else { 2 };
                                    break;
                                }
                                proof {
                                    lemma_field_type_step(fields@, k as int, field@);
                                }
                                k = k + 1;
                            }
                            if verdict == 1 {
                                assert(fields@.take(k as int) =~= fields@);
                            }
                        },
                        _ => {},
                    },
                    None => {},
                }
                if verdict == 1 {
                    self.fail(SemanticError::UndefinedField { struct_name: struct_type.clone(), field_name: field.clone() })
                } else if verdict == 2 {
                    self.fail(SemanticError::TypeMismatch { expected: declared, found: right })
                } else if verdict == 3 {
                    Ok(right)
                } else {
                    self.fail(SemanticError::UndefinedStruct(struct_type.clone()))
                }
            },
            AssignTarget::Element { index_type } => {
                if !str_eq(index_type.as_str(), "int") {
                    return self.fail(SemanticError::TypeMismatch { expected: owned("int"), found: index_type.clone() });
                }
                Ok(right)
            },
            AssignTarget::Other => {
                let m = owned("\u{8d4b}\u{503c}\u{64cd}\u{4f5c}\u{7b26}\u{5de6}\u{4fa7}\u{5fc5}\u{987b}\u{662f}\u{53ef}\u{4fee}\u{6539}\u{7684}\u{8868}\u{8fbe}\u{5f0f}");
                self.fail(SemanticError::InvalidSyntax(m))
            },
        }
    }

    /// An `if` whose condition has type `condition` and whose branches have
    /// types `then_type` and `else_type` (`void` where there is no `else`).
    /// A condition that is not `bool` records a mismatch and the analysis
    /// goes on; the branches join where they agree or one is `void`, else a
    /// mismatch is recorded and every error so far is reported.
    pub fn analyze_if_expression(&mut self, condition: String, then_type: String, else_type: Option<String>) -> (r: Result<String, Vec<SemanticError>>)
        ensures
            final(self).symbol_table == old(self).symbol_table,
            ({
                let n = old(self).errors@.len();
                let m = if condition@ == "bool"@ { n } else { n + 1 };
                let e = match else_type { Some(t) => t@, None => "void"@ };
                &&& final(self).errors@.len() >= m
                &&& final(self).errors@.take(n as int) == old(self).errors@
                &&& condition@ != "bool"@ ==> is_mismatch(final(self).errors@[n as int], "bool"@, condition@)
                &&& match branch_join(then_type@, e) {
                    Some(t) => (r matches Ok(x) && x@ == t) && final(self).errors@.len() == m,
                    None => final(self).errors@.len() == m + 1 && (r matches Err(all) && all@ == final(self).errors@)
                        && is_mismatch(final(self).errors@.last(), then_type@, e),
                }
            }),
    {
        proof {
            reveal_strlit("bool");
            reveal_strlit("void");
        }
        let ghost c = condition@;
        if !str_eq(condition.as_str(), "bool") {
            self.errors.push(SemanticError::TypeMismatch { expected: owned("bool"), found: condition });
        }
        assert(self.errors@.take(old(self).errors@.len() as int) =~= old(self).errors@);
        let ghost mid = self.errors@;
        let other = match else_type {
            Some(t) => t,
            None => owned("void"),
        };
        if str_eq(then_type.as_str(), other.as_str()) {
            Ok(then_type)
        } else if str_eq(then_type.as_str(), "void") {
            Ok(other)
        } else if str_eq(other.as_str(), "void") {
            Ok(then_type)
        } else {
            let r = self.fail(SemanticError::TypeMismatch { expected: then_type, found: other });
            proof {
                let n = old(self).errors@.len() as int;
                assert(self.errors@.drop_last() == mid);
                if c != "bool"@ {
                    assert(n < mid.len());
                    assert(self.errors@[n] == mid[n]);
                }
                assert(self.errors@.take(n) =~= mid.take(n));
            }
            r
        }
    }

    /// A call of `callee` with arguments of types `args`: the function's
    /// return type where `callee` names a function whose parameter types are
    /// `args`; else the error `call_fault` describes.
    pub fn analyze_call(&mut self, callee: &CallTarget, args: &Vec<String>) -> (r: Result<String, Vec<SemanticError>>)
        requires
            old(self).symbol_table.wf(),
        ensures
            final(self).symbol_table == old(self).symbol_table,
            match call_type(old(self).symbol_table, *callee, args@.map_values(|t: String| t@)) {
                Some(t) => (r matches Ok(x) && x@ == t) && final(self).errors@ == old(self).errors@,
                None => recorded(old(self).errors@, final(self).errors@, r)
                    && call_fault(old(self).symbol_table, *callee, args@.map_values(|t: String| t@), final(self).errors@.last()),
            },
    {
        let ghost ts = args@.map_values(|t: String| t@);
        match callee {
            CallTarget::Value(t) => self.fail(SemanticError::NotAFunction(t.clone())),
            CallTarget::Named(name) => {
                // 0: undefined, 1: not a function, 2: count, 3: argument type, 4: fine
                let mut verdict: u8 = 0;
                let mut at: usize = 0;
                let mut expected = owned("");
                let mut ret = owned("");
                let mut n_params: usize = 0;
                match self.symbol_table.lookup_symbol(name.as_str()) {
                    Some(symbol) => match &symbol.kind {
                        SymbolKind::Function { params, return_type } => {
                            let ghost ps = params@.map_values(|p: (String, String)| p.1@);
                            n_params = params.len();
                            if params.len() != args.len() {
                                verdict = 2;
                            } else {
                                verdict = 4;
                                let mut k: usize = 0;
                                while k < params.len()
                                    invariant_except_break
                                        verdict == 4,
                                        first_diff_from(ps, ts, 0) == first_diff_from(ps, ts, k as int),
                                    invariant
                                        k <= params@.len(),
                                        params@.len() == args@.len(),
                                        ps == params@.map_values(|p: (String, String)| p.1@),
                                        ts == args@.map_values(|t: String| t@),
                                    ensures
                                        verdict == 4 ==> first_diff_from(ps, ts, 0) is None,
                                        verdict != 4 ==> verdict == 3 && first_diff_from(ps, ts, 0) == Some(at as int)
                                            && at < params@.len() && expected@ == ps[at as int],
                                    decreases params@.len() - k,
                                {
                                    if !str_eq(params[k].1.as_str(), args[k].as_str()) {
                                        verdict = 3;
                                        at = k;
                                        expected = params[k].1.clone();
                                        break;
                                    }
                                    k = k + 1;
                                }
                            }
                            ret = return_type.clone();
                        },
                        _ => {
                            verdict = 1;
                        },
                    },
                    None => {},
                }
                if verdict == 0 {
                    self.fail(SemanticError::UndefinedIdentifier(name.clone()))
                } else if verdict == 1 {
                    self.fail(SemanticError::NotAFunction(name.clone()))
                } else if verdict == 2 {
                    self.fail(SemanticError::WrongArgumentCount { name: name.clone(), expected: n_params, found: args.len() })
                } else if verdict == 3 {
                    let found = args[at].clone();
                    self.fail(SemanticError::WrongArgumentType { name: name.clone(), arg_idx: at, expected, found })
                } else {
                    Ok(ret)
                }
            },
        }
    }

    /// A `let` of `name`, declared with type `ty` if any, bound to a value
    /// of type `value_type` (`value_is_ref`: the value takes an address).
    /// In order: an address taken for a variable not declared as a
    /// reference is `InvalidRef`; a declared type that is neither a type nor
    /// a reference is `InvalidType`; a declared type other than the value's
    /// is a mismatch; a name already defined in the current scope is a
    /// redeclaration. Otherwise the variable is defined at the current
    /// position, after it is marked escaping where it lives on the heap.
    pub fn analyze_let_statement(&mut self, mutable: bool, name: &str, ty: &Option<String>, value_type: String, value_is_ref: bool) -> (r: Result<(), Vec<SemanticError>>)
        requires
            old(self).symbol_table.wf(),
        ensures
            final(self).symbol_table.wf(),
            ({
                let ok_ref = !value_is_ref || (ty is Some && is_ref_text(ty->0@));
                let ok_ty = match *ty { Some(t) => names_type(old(self).symbol_table, t@) || is_ref_text(t@), None => true };
                let ok_match = match *ty { Some(t) => t@ == value_type@, None => true };
                let unchanged = final(self).symbol_table == old(self).symbol_table && final(self).escape_analyzer == old(self).escape_analyzer;
                &&& !ok_ref ==> unchanged && recorded_unit(old(self).errors@, final(self).errors@, r) && final(self).errors@.last() is InvalidRef
                &&& ok_ref && !ok_ty ==> unchanged && recorded_unit(old(self).errors@, final(self).errors@, r)
                    && (final(self).errors@.last() matches SemanticError::InvalidType(t) && t@ == ty->0@)
                &&& ok_ref && ok_ty && !ok_match ==> unchanged && recorded_unit(old(self).errors@, final(self).errors@, r)
                    && is_mismatch(final(self).errors@.last(), ty->0@, value_type@)
                &&& ok_ref && ok_ty && ok_match ==> {
                    &&& escape_marked(old(self).escape_analyzer.escape_info@, final(self).escape_analyzer.escape_info@, name@)
                    &&& final(self).symbol_table.current_scope == old(self).symbol_table.current_scope
                    &&& if defined_here(old(self).symbol_table, name@) {
                        &&& recorded_unit(old(self).errors@, final(self).errors@, r)
                        &&& final(self).errors@.last() matches SemanticError::Redeclaration(n) && n@ == name@
                        &&& final(self).symbol_table.scopes@ == old(self).symbol_table.scopes@
                    } else {
                        &&& r is Ok
                        &&& final(self).errors@ == old(self).errors@
                        &&& final(self).symbol_table.resolve(name@) matches Some(sym)
                            && sym.name@ == name@ && sym.position == (old(self).current_line, old(self).current_column)
                            && (sym.kind matches SymbolKind::Variable { mutable: m, ty: t } && m == mutable && t@ == value_type@)
                    }
                }
            }),
    {
        proof {
            reveal_strlit("&");
            reveal_strlit("ref ");
            reveal_strlit("global");
        }
        let is_ref_type = match ty {
            Some(t) => starts_with(t.as_str(), "&") || starts_with(t.as_str(), "ref "),
            None => false,
        };
        if value_is_ref && !is_ref_type {
            return self.fail_unit(SemanticError::InvalidRef);
        }
        let var_type = match ty {
            Some(t) => {
                if !self.symbol_table.is_type(t.as_str()) && !starts_with(t.as_str(), "&") && !starts_with(t.as_str(), "ref ") {
                    return self.fail_unit(SemanticError::InvalidType(t.clone()));
                }
                if !str_eq(t.as_str(), value_type.as_str()) {
                    return self.fail_unit(SemanticError::TypeMismatch { expected: t.clone(), found: value_type });
                }
                t.clone()
            },
            None => value_type,
        };
        if self.escape_analyzer.should_allocate_on_heap(name, "global") {
            self.escape_analyzer.mark_escaped(name, "global");
        }
        let symbol = Symbol {
            name: owned(name),
            kind: SymbolKind::Variable { mutable, ty: var_type },
            position: (self.current_line, self.current_column),
        };
        let ghost sym = symbol;
        match self.symbol_table.define_symbol(symbol) {
            Ok(()) => {
                proof {
                    let st = self.symbol_table;
                    assert(assoc_lookup(st.scopes@[st.current_scope as int]@, name@) == Some(sym));
                    assert(st.resolve(name@) == Some(sym));
                }
                Ok(())
            },
            Err(e) => self.fail_unit(e),
        }
    }

    /// Records `e` and reports every error recorded so far.
    fn fail_unit(&mut self, e: SemanticError) -> (r: Result<(), Vec<SemanticError>>)
        ensures
            recorded_unit(old(self).errors@, final(self).errors@, r),
            final(self).errors@.last() == e,
            final(self).symbol_table == old(self).symbol_table,
            final(self).escape_analyzer == old(self).escape_analyzer,
            final(self).current_line == old(self).current_line,
            final(self).current_column == old(self).current_column,
    {
        self.errors.push(e);
        proof {
            assert(self.errors@.drop_last() =~= old(self).errors@);
        }
        Err(copy_semantic_errors(&self.errors))
    }

    /// The first field of `fields`, from index `k`, whose type does not
    /// name a type, found with the table's `is_type`.
    fn find_bad_field(&self, fields: &[StructField]) -> (r: Option<usize>)
        requires
            self.symbol_table.wf(),
        ensures
            match first_bad_field(self.symbol_table, fields@, 0) {
                Some(i) => 0 <= i < fields@.len() && (r matches Some(x) && x as int == i),
                None => r is None,
            },
    {
        let mut k: usize = 0;
        while k < fields.len()
            invariant
                k <= fields@.len(),
                self.symbol_table.wf(),
                first_bad_field(self.symbol_table, fields@, 0) == first_bad_field(self.symbol_table, fields@, k as int),
            decreases fields@.len() - k,
        {
            if !self.symbol_table.is_type(fields[k].ty.as_str()) {
                return Some(k);
            }
            k = k + 1;
        }
        None
    }

    /// Defines the struct `name` with `fields` at the current position,
    /// after checking that every field's type names a type; the first that
    /// does not is `InvalidType`, and a name already defined in the current
    /// scope is a redeclaration.
    pub fn analyze_struct_statement(&mut self, name: &str, fields: &[StructField]) -> (r: Result<(), Vec<SemanticError>>)
        requires
            old(self).symbol_table.wf(),
        ensures
            final(self).symbol_table.wf(),
            final(self).escape_analyzer == old(self).escape_analyzer,
            match first_bad_field(old(self).symbol_table, fields@, 0) {
                Some(i) => final(self).symbol_table == old(self).symbol_table
                    && recorded_unit(old(self).errors@, final(self).errors@, r)
                    && (final(self).errors@.last() matches SemanticError::InvalidType(t) && t@ == fields@[i].ty@),
                None => if defined_here(old(self).symbol_table, name@) {
                    &&& recorded_unit(old(self).errors@, final(self).errors@, r)
                    &&& final(self).errors@.last() matches SemanticError::Redeclaration(n) && n@ == name@
                    &&& final(self).symbol_table.scopes@ == old(self).symbol_table.scopes@
                } else {
                    &&& r is Ok
                    &&& final(self).errors@ == old(self).errors@
                    &&& final(self).symbol_table.resolve(name@) matches Some(sym)
                        && sym.name@ == name@ && sym.position == (old(self).current_line, old(self).current_column)
                        && (sym.kind matches SymbolKind::Struct { fields: fs } && fs@ == fields@)
                },
            },
    {
        match self.find_bad_field(fields) {
            Some(k) => {
                let t = fields[k].ty.clone();
                return self.fail_unit(SemanticError::InvalidType(t));
            },
            None => {},
        }
        let copied = copy_fields(fields);
        let symbol = Symbol {
            name: owned(name),
            kind: SymbolKind::Struct { fields: copied },
            position: (self.current_line, self.current_column),
        };
        let ghost sym = symbol;
        match self.symbol_table.define_symbol(symbol) {
            Ok(()) => {
                proof {
                    let st = self.symbol_table;
                    assert(assoc_lookup(st.scopes@[st.current_scope as int]@, name@) == Some(sym));
                    assert(st.resolve(name@) == Some(sym));
                }
                Ok(())
            },
            Err(e) => self.fail_unit(e),
        }
    }

    /// Defines the enum `name` with `variants` at the current position,
    /// after checking that every field type of every variant names a type;
    /// the first that does not is `InvalidType`, and a name already defined
    /// in the current scope is a redeclaration.
    pub fn analyze_enum_statement(&mut self, name: &str, variants: &[(String, Option<Vec<StructField>>)]) -> (r: Result<(), Vec<SemanticError>>)
        requires
            old(self).symbol_table.wf(),
        ensures
            final(self).symbol_table.wf(),
            final(self).escape_analyzer == old(self).escape_analyzer,
            match first_bad_variant_type(old(self).symbol_table, variants@, 0) {
                Some(bad) => final(self).symbol_table == old(self).symbol_table
                    && recorded_unit(old(self).errors@, final(self).errors@, r)
                    && (final(self).errors@.last() matches SemanticError::InvalidType(t) && t@ == bad),
                None => if defined_here(old(self).symbol_table, name@) {
                    &&& recorded_unit(old(self).errors@, final(self).errors@, r)
                    &&& final(self).errors@.last() matches SemanticError::Redeclaration(n) && n@ == name@
                    &&& final(self).symbol_table.scopes@ == old(self).symbol_table.scopes@
                } else {
                    &&& r is Ok
                    &&& final(self).errors@ == old(self).errors@
                    &&& final(self).symbol_table.resolve(name@) matches Some(sym)
                        && sym.name@ == name@ && sym.position == (old(self).current_line, old(self).current_column)
                        && (sym.kind matches SymbolKind::Enum { variants: vs } && variants_view(vs@) == variants_view(variants@))
                },
            },
    {
        let mut k: usize = 0;
        while k < variants.len()
            invariant
                k <= variants@.len(),
                self.symbol_table.wf(),
                self.symbol_table == old(self).symbol_table,
                self.errors@ == old(self).errors@,
                self.escape_analyzer == old(self).escape_analyzer,
                self.current_line == old(self).current_line,
                self.current_column == old(self).current_column,
                first_bad_variant_type(self.symbol_table, variants@, 0) == first_bad_variant_type(self.symbol_table, variants@, k as int),
            decreases variants@.len() - k,
        {
            match &variants[k].1 {
                Some(fields) => {
                    let sl = fields.as_slice();
                    assert(sl@ == fields@);
                    match self.find_bad_field(sl) {
                    Some(j) => {
                        proof {
                            assert(variants@[k as int].1 == Some(*fields));
                            let fb = first_bad_field(self.symbol_table, sl@, 0);
                            assert(fb is Some);
                            assert(fb->0 == j as int);
                            assert(first_bad_field(self.symbol_table, fields@, 0) == Some(j as int));
                            assert(first_bad_variant_type(self.symbol_table, variants@, k as int) == Some(fields@[j as int].ty@));
                        }
                        let t = fields[j].ty.clone();
                        return self.fail_unit(SemanticError::InvalidType(t));
                    },
                    None => {},
                    }
                },
                None => {},
            }
            k = k + 1;
        }
        let mut copied: Vec<(String, Option<Vec<StructField>>)> = Vec::new();
        let mut k: usize = 0;
        while k < variants.len()
            invariant
                k <= variants@.len(),
                variants_view(copied@) == variants_view(variants@.take(k as int)),
            decreases variants@.len() - k,
        {
            let fs = match &variants[k].1 {
                Some(fields) => Some(copy_fields(fields.as_slice())),
                None => None,
            };
            let nm = variants[k].0.clone();
            let ghost v = variants@[k as int];
            assert(match fs { Some(f) => v.1 is Some && f@ == v.1->0@, None => v.1 is None });
            let ghost before = copied@;
            copied.push((nm, fs));
            proof {
                let vv = |x: (String, Option<Vec<StructField>>)| (x.0, match x.1 { Some(f) => Some(f@), None => None::<Seq<StructField>> });
                assert(vv(copied@.last()) == vv(v));
                assert(variants@.take(k + 1) =~= variants@.take(k as int).push(v));
                assert(copied@ =~= before.push(copied@.last()));
                assert(variants_view(copied@) =~= variants_view(before).push(vv(copied@.last())));
                assert(variants_view(variants@.take(k + 1)) =~= variants_view(variants@.take(k as int)).push(vv(v)));
            }
            k = k + 1;
        }
        assert(variants@.take(k as int) =~= variants@);
        let symbol = Symbol {
            name: owned(name),
            kind: SymbolKind::Enum { variants: copied },
            position: (self.current_line, self.current_column),
        };
        let ghost sym = symbol;
        match self.symbol_table.define_symbol(symbol) {
            Ok(()) => {
                proof {
                    let st = self.symbol_table;
                    assert(assoc_lookup(st.scopes@[st.current_scope as int]@, name@) == Some(sym));
                    assert(st.resolve(name@) == Some(sym));
                }
                Ok(())
            },
            Err(e) => self.fail_unit(e),
        }
    }
}

} // verus!
