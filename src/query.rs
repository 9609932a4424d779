//! Queries: boolean set expressions over index keys, compiled by `stal` into one
//! atomic pipeline whose designated command yields the matching ids.
use vstd::prelude::*;
use vstd::utf8::{encode_utf8, valid_utf8};
use crate::keys::{all_key, all_key_of, index_key, index_key_of, sort_pattern, sort_pattern_of};
use crate::persist::OhmerError;
use crate::text::{decimal, same_text, texts, usize_text, utf8_text};

verus! {

#[verifier::external_type_specification]
pub struct ExStalSet(stal::Set);

/// `s` is the leaf of the store key `key`.
pub open spec fn is_key_set(s: stal::Set, key: Seq<char>) -> bool {
    s matches stal::Set::Key(b) && b@ == encode_utf8(key)
}

/// `s` is the leaf of the secondary index of `field` at `value` in `class`.
pub open spec fn is_index_set(s: stal::Set, class: Seq<char>, field: Seq<char>, value: Seq<char>) -> bool {
    is_key_set(s, index_key_of(class, field, value))
}

/// The leaf of a store key.
pub fn key_set(key: &str) -> (r: stal::Set)
    ensures
        is_key_set(r, key@),
{
    stal::Set::Key(key.as_bytes_vec())
}

/// A query over the objects of one class.
pub struct Query {
    pub class: String,
    pub set: stal::Set,
}

/// A query over every object of `class`: its all-set.
pub fn all_query(class: &str) -> (r: Query)
    ensures
        r.class@ == class@,
        is_key_set(r.set, all_key_of(class@)),
{
    Query::new(class, key_set(all_key(class).as_str()))
}

/// The compiled pipeline: every command, and the position of the one whose reply is
/// the list of ids.
pub struct Plan {
    pub ops: Vec<Vec<Vec<u8>>>,
    pub result: usize,
}

/// What `stal`'s compiler promises of every pipeline it produces: it opens with
/// `MULTI`, closes with `EXEC`, and the designated command lies strictly between.
pub open spec fn is_transaction(ops: Seq<Seq<Seq<u8>>>, result: nat) -> bool {
    &&& ops.len() >= 3
    &&& ops[0] == seq![bytes_of("MULTI"@)]
    &&& ops.last() == seq![bytes_of("EXEC"@)]
    &&& 1 <= result <= ops.len() - 2
}

/// The set command that lists the ids of an expression at its top level.
pub open spec fn top_command(s: stal::Set) -> Seq<u8> {
    match s {
        stal::Set::Key(_) => bytes_of("SMEMBERS"@),
        stal::Set::Union(_) => bytes_of("SUNION"@),
        stal::Set::Inter(_) => bytes_of("SINTER"@),
        stal::Set::Diff(_) => bytes_of("SDIFF"@),
    }
}

/// The operands of a compound expression; a leaf has none.
pub open spec fn operands(s: stal::Set) -> Seq<stal::Set> {
    match s {
        stal::Set::Key(_) => Seq::empty(),
        stal::Set::Union(v) => v@,
        stal::Set::Inter(v) => v@,
        stal::Set::Diff(v) => v@,
    }
}

/// A leaf, or a compound expression whose operands are all leaves: it needs no
/// temporary keys.
pub open spec fn is_flat(s: stal::Set) -> bool {
    forall|i: int| 0 <= i < operands(s).len() ==> (#[trigger] operands(s)[i] is Key)
}

/// The command that lists the ids of a flat expression: `SMEMBERS key`, or the set
/// command followed by the operands' keys.
pub open spec fn flat_command(s: stal::Set) -> Seq<Seq<u8>> {
    match s {
        stal::Set::Key(k) => seq![bytes_of("SMEMBERS"@), k@],
        _ => seq![top_command(s)] + operands(s).map_values(|o: stal::Set| key_bytes(o)),
    }
}

/// The pipeline `stal` builds to list the ids of `set`: a flat expression is one
/// command between `MULTI` and `EXEC`; any other has its set command at the result,
/// with each leaf operand's key in that operand's place.
pub open spec fn lists_ids(set: stal::Set, ops: Seq<Seq<Seq<u8>>>, result: nat) -> bool {
    &&& is_transaction(ops, result)
    &&& is_flat(set) ==> ops == seq![seq![bytes_of("MULTI"@)], flat_command(set), seq![bytes_of("EXEC"@)]]
        && result == 1
    &&& !(set is Key) ==> {
        &&& ops[result as int].len() == operands(set).len() + 1
        &&& ops[result as int][0] == top_command(set)
        &&& forall|i: int|
            0 <= i < operands(set).len() && (#[trigger] operands(set)[i] is Key) ==> ops[result as int][i + 1]
                == key_bytes(operands(set)[i])
    }
}

/// The pipeline `stal` builds around `command`, whose second token is the placeholder
/// of `set`: the placeholder takes the key of a leaf, or the first temporary key
/// `stal:0` that holds a compound expression; a leaf needs nothing more.
pub open spec fn fills_template(set: stal::Set, command: Seq<Seq<u8>>, ops: Seq<Seq<Seq<u8>>>, result: nat) -> bool {
    &&& is_transaction(ops, result)
    &&& ops[result as int] == command.update(
        1,
        if set is Key {
            key_bytes(set)
        } else {
            bytes_of("stal:0"@)
        },
    )
    &&& set is Key ==> ops == seq![seq![bytes_of("MULTI"@)], ops[result as int], seq![bytes_of("EXEC"@)]]
        && result == 1
}

/// Relies on `stal::Set::ids` and `stal::Stal::solve`: the pipeline that lists the ids
/// of the set, with the position of its listing command.
#[verifier::external_body]
fn plan_ids(set: &stal::Set) -> (r: (Vec<Vec<Vec<u8>>>, usize))
    ensures
        lists_ids(*set, ops_view(r.0@), r.1 as nat),
{
    set.ids().solve()
}

/// Relies on `stal::Set::into_ids` and `stal::Stal::solve`: as `plan_ids`, taking the set.
#[verifier::external_body]
fn plan_into_ids(set: stal::Set) -> (r: (Vec<Vec<Vec<u8>>>, usize))
    ensures
        lists_ids(set, ops_view(r.0@), r.1 as nat),
{
    set.into_ids().solve()
}

/// Relies on `stal::Stal::from_template` and `stal::Stal::solve`: the pipeline around
/// `command` with `set` in its second token, with the position of that command.
#[verifier::external_body]
fn plan_template(command: Vec<Vec<u8>>, set: stal::Set) -> (r: (Vec<Vec<Vec<u8>>>, usize))
    requires
        command@.len() >= 2,
    ensures
        fills_template(set, bytes_view(command@), ops_view(r.0@), r.1 as nat),
{
    stal::Stal::from_template(command, vec![(set, 1)]).solve()
}

/// Relies on `stal::Set`'s derived `Clone`: a leaf stays the same leaf.
#[verifier::external_body]
fn clone_set(s: &stal::Set) -> (r: stal::Set)
    ensures
        (r is Key) == (*s is Key),
        key_bytes(r) == key_bytes(*s),
{
    s.clone()
}

/// The bytes of a text.
pub open spec fn bytes_of(s: Seq<char>) -> Seq<u8> {
    encode_utf8(s)
}

/// The `SORT` command template: its second token is the placeholder of the source set.
pub open spec fn sort_template(
    pattern: Seq<char>,
    limit: Option<(usize, usize)>,
    asc: bool,
    alpha: bool,
) -> Seq<Seq<u8>> {
    let head = seq![bytes_of("SORT"@), Seq::<u8>::empty(), bytes_of("BY"@), bytes_of(pattern)];
    let windowed = match limit {
        Some(l) => head + seq![
            bytes_of("LIMIT"@),
            bytes_of(decimal(l.0 as nat)),
            bytes_of(decimal(l.1 as nat)),
        ],
        None => head,
    };
    let ordered = windowed.push(if asc {
        bytes_of("ASC"@)
    } else {
        bytes_of("DESC"@)
    });
    if alpha {
        ordered.push(bytes_of("ALPHA"@))
    } else {
        ordered
    }
}

pub open spec fn bytes_view(v: Seq<Vec<u8>>) -> Seq<Seq<u8>> {
    v.map_values(|b: Vec<u8>| b@)
}

pub fn word(s: &str) -> (r: Vec<u8>)
    ensures
        r@ == bytes_of(s@),
{
    s.as_bytes_vec()
}

/// Whether `name` is among `names`.
fn listed(names: &Vec<String>, name: &str) -> (r: bool)
    ensures
        r == texts(names@).contains(name@),
{
    let mut i: usize = 0;
    while i < names.len()
        invariant
            i <= names@.len(),
            forall|j: int| 0 <= j < i ==> texts(names@)[j] != name@,
        decreases names.len() - i,
    {
        if same_text(names[i].as_str(), name) {
            assert(texts(names@)[i as int] == name@);
            return true;
        }
        i = i + 1;
    }
    false
}

impl Query {
    pub fn new(class: &str, set: stal::Set) -> (r: Query)
        ensures
            r.class@ == class@,
            r.set == set,
    {
        Query { class: String::from_str(class), set }
    }

    /// The leaf of the secondary index of `field` at `value`.
    pub fn key(class: &str, field: &str, value: &str) -> (r: stal::Set)
        ensures
            is_index_set(r, class@, field@, value@),
    {
        key_set(index_key(class, field, value).as_str())
    }

    /// The objects whose `field` holds `value`.
    pub fn find(class: &str, field: &str, value: &str) -> (r: Query)
        ensures
            r.class@ == class@,
            is_index_set(r.set, class@, field@, value@),
    {
        Query::new(class, Query::key(class, field, value))
    }

    /// The objects that match every (field, value) pair.
    pub fn from_keys(class: &str, kv: &Vec<(String, String)>) -> (r: Query)
        ensures
            r.class@ == class@,
            r.set matches stal::Set::Inter(v) && v@.len() == kv@.len() && forall|i: int|
                0 <= i < kv@.len() ==> is_index_set(#[trigger] v@[i], class@, kv@[i].0@, kv@[i].1@),
    {
        let mut sets: Vec<stal::Set> = Vec::new();
        let mut i: usize = 0;
        while i < kv.len()
            invariant
                i <= kv@.len(),
                sets@.len() == i,
                forall|j: int|
                    0 <= j < i ==> is_index_set(#[trigger] sets@[j], class@, kv@[j].0@, kv@[j].1@),
            decreases kv.len() - i,
        {
            sets.push(Query::key(class, kv[i].0.as_str(), kv[i].1.as_str()));
            i = i + 1;
        }
        Query::new(class, stal::Set::Inter(sets))
    }

    /// Intersects the query with the given sets: `Inter(sets + [current])`.
    pub fn sinter(&mut self, sets: Vec<stal::Set>)
        ensures
            final(self).class == old(self).class,
            final(self).set matches stal::Set::Inter(v) && v@ == sets@.push(old(self).set),
    {
        let mut sets = sets;
        let mut current = stal::Set::Key(Vec::new());
        core::mem::swap(&mut current, &mut self.set);
        sets.push(current);
        self.set = stal::Set::Inter(sets);
    }

    /// Unites the query with the given sets: `Union(sets + [current])`.
    pub fn sunion(&mut self, sets: Vec<stal::Set>)
        ensures
            final(self).class == old(self).class,
            final(self).set matches stal::Set::Union(v) && v@ == sets@.push(old(self).set),
    {
        let mut sets = sets;
        let mut current = stal::Set::Key(Vec::new());
        core::mem::swap(&mut current, &mut self.set);
        sets.push(current);
        self.set = stal::Set::Union(sets);
    }

    /// Removes the given sets from the query: `Diff([current] + sets)`.
    pub fn sdiff(&mut self, sets: Vec<stal::Set>)
        ensures
            final(self).class == old(self).class,
            final(self).set matches stal::Set::Diff(v) && v@ == seq![old(self).set] + sets@,
    {
        let mut sets = sets;
        let mut current = stal::Set::Key(Vec::new());
        core::mem::swap(&mut current, &mut self.set);
        sets.insert(0, current);
        self.set = stal::Set::Diff(sets);
    }

    /// Narrows the query to the objects whose `field` also holds `value`.
    pub fn inter(&mut self, field: &str, value: &str) -> (r: &mut Self)
        ensures
            r.class == old(self).class,
            r.set matches stal::Set::Inter(v) && v@.len() == 2 && is_index_set(
                v@[0],
                old(self).class@,
                field@,
                value@,
            ) && v@[1] == old(self).set,
            *final(self) == *final(r),
    {
        let mut sets: Vec<stal::Set> = Vec::new();
        sets.push(Query::key(self.class.as_str(), field, value));
        self.sinter(sets);
        self
    }

    /// Widens the query to the objects whose `field` holds `value`.
    pub fn union(&mut self, field: &str, value: &str) -> (r: &mut Self)
        ensures
            r.class == old(self).class,
            r.set matches stal::Set::Union(v) && v@.len() == 2 && is_index_set(
                v@[0],
                old(self).class@,
                field@,
                value@,
            ) && v@[1] == old(self).set,
            *final(self) == *final(r),
    {
        let mut sets: Vec<stal::Set> = Vec::new();
        sets.push(Query::key(self.class.as_str(), field, value));
        self.sunion(sets);
        self
    }

    /// Removes the objects whose `field` holds `value`: the current query comes first.
    pub fn diff(&mut self, field: &str, value: &str) -> (r: &mut Self)
        ensures
            r.class == old(self).class,
            r.set matches stal::Set::Diff(v) && v@.len() == 2 && v@[0] == old(self).set
                && is_index_set(v@[1], old(self).class@, field@, value@),
            *final(self) == *final(r),
    {
        let mut sets: Vec<stal::Set> = Vec::new();
        sets.push(Query::key(self.class.as_str(), field, value));
        self.sdiff(sets);
        self
    }

    /// The pipeline that lists the ids of the query; the query stays usable.
    pub fn try_iter(&self) -> (r: Plan)
        ensures
            lists_ids(self.set, ops_view(r.ops@), r.result as nat),
    {
        let (ops, result) = plan_ids(&self.set);
        Plan { ops, result }
    }

    /// The pipeline that lists the ids of the query, consuming it.
    pub fn try_into_iter(self) -> (r: Plan)
        ensures
            lists_ids(self.set, ops_view(r.ops@), r.result as nat),
    {
        let (ops, result) = plan_into_ids(self.set);
        Plan { ops, result }
    }

    /// The `SORT` command over the query's ids: by a counter's key when `by` is one of
    /// the class's `counters`, else by the record field; optionally windowed by
    /// `(offset, count)`; ascending or descending; lexicographic or numeric.
    pub fn sort_command(
        &self,
        by: &str,
        limit: Option<(usize, usize)>,
        asc: bool,
        alpha: bool,
        counters: &Vec<String>,
    ) -> (r: Vec<Vec<u8>>)
        ensures
            bytes_view(r@) == sort_template(
                sort_pattern_of(self.class@, by@, texts(counters@).contains(by@)),
                limit,
                asc,
                alpha,
            ),
    {
        let counter = listed(counters, by);
        let pattern = sort_pattern(self.class.as_str(), by, counter);
        let mut t: Vec<Vec<u8>> = Vec::new();
        t.push(word("SORT"));
        t.push(Vec::new());
        t.push(word("BY"));
        t.push(word(pattern.as_str()));
        match limit {
            Some(l) => {
                t.push(word("LIMIT"));
                t.push(word(usize_text(l.0).as_str()));
                t.push(word(usize_text(l.1).as_str()));
            },
            None => {},
        }
        if asc {
            t.push(word("ASC"));
        } else {
            t.push(word("DESC"));
        }
        if alpha {
            t.push(word("ALPHA"));
        }
        assert(bytes_view(t@) =~= sort_template(pattern@, limit, asc, alpha));
        t
    }

    /// The pipeline that sorts the query's ids; see `sort_command`.
    pub fn sort(
        &self,
        by: &str,
        limit: Option<(usize, usize)>,
        asc: bool,
        alpha: bool,
        counters: &Vec<String>,
    ) -> (r: Plan)
        ensures
            fills_template(
                self.set,
                sort_template(
                    sort_pattern_of(self.class@, by@, texts(counters@).contains(by@)),
                    limit,
                    asc,
                    alpha,
                ),
                ops_view(r.ops@),
                r.result as nat,
            ),
    {
        let template = self.sort_command(by, limit, asc, alpha, counters);
        let set = clone_set(&self.set);
        assert(template@.len() == bytes_view(template@).len());
        let (ops, result) = plan_template(template, set);
        Plan { ops, result }
    }
}

/// One command of a pipeline: its name, its arguments, and whether its reply is
/// dropped.
pub struct Command {
    pub name: String,
    pub args: Vec<Vec<u8>>,
    pub ignored: bool,
}

pub open spec fn ops_view(ops: Seq<Vec<Vec<u8>>>) -> Seq<Seq<Seq<u8>>> {
    ops.map_values(|op: Vec<Vec<u8>>| bytes_view(op@))
}

/// The commands issued for the operations at positions `1 ..= n`, empty ones left out.
pub open spec fn pipeline_upto(ops: Seq<Seq<Seq<u8>>>, result: nat, n: nat) -> Seq<
    (Seq<u8>, Seq<Seq<u8>>, bool),
>
    decreases n,
{
    if n == 0 {
        Seq::empty()
    } else {
        let prev = pipeline_upto(ops, result, (n - 1) as nat);
        let op = ops[n as int];
        if op.len() == 0 {
            prev
        } else {
            prev.push((op[0], op.skip(1), n != result))
        }
    }
}

/// The pipeline of a plan: every operation but the opening `MULTI` and the closing
/// `EXEC`, which the pipeline issues itself; only the designated reply is kept.
pub open spec fn pipeline_ops(ops: Seq<Seq<Seq<u8>>>, result: nat) -> Seq<
    (Seq<u8>, Seq<Seq<u8>>, bool),
> {
    if ops.len() < 2 {
        Seq::empty()
    } else {
        pipeline_upto(ops, result, (ops.len() - 2) as nat)
    }
}

/// Every command name among the operations at positions `1 .. len - 1` is UTF-8.
pub open spec fn names_valid(ops: Seq<Seq<Seq<u8>>>) -> bool {
    forall|i: int| 1 <= i < ops.len() - 1 && ops[i].len() > 0 ==> valid_utf8(#[trigger] ops[i][0])
}

pub open spec fn commands_view(c: Seq<Command>) -> Seq<(Seq<u8>, Seq<Seq<u8>>, bool)> {
    c.map_values(|x: Command| (encode_utf8(x.name@), bytes_view(x.args@), x.ignored))
}

/// Turns a plan into pipeline commands; a command name that is not UTF-8 fails as
/// `CommandError` with its bytes.
pub fn pipeline(plan: Plan) -> (r: Result<Vec<Command>, OhmerError>)
    ensures
        r is Ok <==> names_valid(ops_view(plan.ops@)),
        r matches Ok(c) ==> commands_view(c@) == pipeline_ops(
            ops_view(plan.ops@),
            plan.result as nat,
        ),
        r matches Err(e) ==> (e matches OhmerError::CommandError(b) && exists|i: int|
            1 <= i < plan.ops@.len() - 1 && ops_view(plan.ops@)[i].len() > 0 && ops_view(
                plan.ops@,
            )[i][0] == b@ && !valid_utf8(b@)),
{
    let ghost ov = ops_view(plan.ops@);
    let Plan { ops, result } = plan;
    assert(ops@ == plan.ops@);
    let n = ops.len();
    let mut out: Vec<Command> = Vec::new();
    if n < 2 {
        assert(commands_view(out@) =~= Seq::empty());
        assert(names_valid(ov));
        return Ok(out);
    }
    let mut i: usize = 1;
    assert(commands_view(out@) =~= pipeline_upto(ov, result as nat, 0));
    while i < n - 1
        invariant
            n == ops@.len(),
            n >= 2,
            ov == ops_view(ops@),
            ov == ops_view(plan.ops@),
            1 <= i <= n - 1,
            commands_view(out@) == pipeline_upto(ov, result as nat, (i - 1) as nat),
            forall|j: int| 1 <= j < i && ov[j].len() > 0 ==> valid_utf8(#[trigger] ov[j][0]),
        decreases n - 1 - i,
    {
        let op = &ops[i];
        assert(ov[i as int] == bytes_view(op@));
        if op.len() > 0 {
            let mut args: Vec<Vec<u8>> = Vec::new();
            let mut k: usize = 1;
            while k < op.len()
                invariant
                    1 <= k <= op@.len(),
                    bytes_view(args@) == bytes_view(op@).subrange(1, k as int),
                decreases op.len() - k,
            {
                let a = op[k].clone();
                assert(a@ =~= op@[k as int]@);
                let ghost before = args@;
                args.push(a);
                assert(bytes_view(args@) =~= bytes_view(before).push(a@));
                assert(bytes_view(op@).subrange(1, k + 1) =~= bytes_view(op@).subrange(
                    1,
                    k as int,
                ).push(op@[k as int]@));
                k = k + 1;
            }
            assert(bytes_view(op@).subrange(1, k as int) =~= bytes_view(op@).skip(1));
            let name_bytes = op[0].clone();
            assert(name_bytes@ =~= op@[0]@);
            assert(ov[i as int][0] == name_bytes@);
            match utf8_text(name_bytes) {
                Ok(name) => {
                    let ghost before = out@;
                    out.push(Command { name, args, ignored: i != result });
                    assert(commands_view(out@) =~= commands_view(before).push(
                        (ov[i as int][0], ov[i as int].skip(1), i != result),
                    ));
                },
                Err(b) => {
                    assert(ov[i as int][0] == b@);
                    assert(!valid_utf8(b@));
                    assert(!names_valid(ov));
                    return Err(OhmerError::CommandError(b));
                },
            }
        }
        i = i + 1;
    }
    assert(commands_view(out@) == pipeline_ops(ov, result as nat));
    assert(names_valid(ov));
    Ok(out)
}

/// The ids of a query's reply, handed out one at a time for hydration. The ids are
/// all known before the first is handed out, so the length is exact.
pub struct Iter {
    ids: Vec<usize>,
    next: usize,
}

impl View for Iter {
    type V = Seq<usize>;

    /// The ids not handed out yet.
    closed spec fn view(&self) -> Seq<usize> {
        self.ids@.skip(self.next as int)
    }
}

impl Iter {
    pub closed spec fn wf(&self) -> bool {
        self.next <= self.ids@.len()
    }

    pub fn new(ids: Vec<usize>) -> (r: Iter)
        ensures
            r.wf(),
            r@ == ids@,
    {
        let r = Iter { ids, next: 0 };
        assert(r@ =~= r.ids@);
        r
    }

    /// The ids of the pipeline's kept reply: the last reply, or none at all.
    pub fn from_replies(replies: Vec<Vec<usize>>) -> (r: Iter)
        ensures
            r.wf(),
            replies@.len() > 0 ==> r@ == replies@.last()@,
            replies@.len() == 0 ==> r@ == Seq::<usize>::empty(),
    {
        let mut replies = replies;
        match replies.pop() {
            Some(ids) => Iter::new(ids),
            None => Iter::new(Vec::new()),
        }
    }

    /// Hands out the next id.
    pub fn next_id(&mut self) -> (r: Option<usize>)
        requires
            old(self).wf(),
        ensures
            final(self).wf(),
            old(self)@.len() == 0 ==> r is None && final(self)@ == old(self)@,
            old(self)@.len() > 0 ==> r == Some(old(self)@[0]) && final(self)@ == old(self)@.skip(1),
    {
        if self.next < self.ids.len() {
            let id = self.ids[self.next];
            self.next = self.next + 1;
            assert(final(self)@ =~= old(self)@.skip(1));
            Some(id)
        } else {
            None
        }
    }

    /// Ends the sequence early: an object that cannot be hydrated ends it.
    pub fn stop(&mut self)
        requires
            old(self).wf(),
        ensures
            final(self).wf(),
            final(self)@ == Seq::<usize>::empty(),
    {
        self.next = self.ids.len();
        assert(final(self)@ =~= Seq::<usize>::empty());
    }

    /// Exactly the number of ids left.
    pub fn size_hint(&self) -> (r: (usize, Option<usize>))
        requires
            self.wf(),
        ensures
            r.0 == self@.len(),
            r.1 == Some(self@.len() as usize),
    {
        let n = self.ids.len() - self.next;
        (n, Some(n))
    }
}

/// The key of a leaf.
pub open spec fn key_bytes(s: stal::Set) -> Seq<u8> {
    match s {
        stal::Set::Key(k) => k@,
        _ => Seq::empty(),
    }
}

/// The ids a set expression denotes over the store's sets `db`, looking at most
/// `depth` levels down; a level deeper than that denotes nothing.
pub open spec fn eval(s: stal::Set, db: Map<Seq<u8>, Set<usize>>, depth: nat) -> Set<usize>
    decreases depth, 0int,
{
    if depth == 0 {
        Set::empty()
    } else {
        match s {
            stal::Set::Key(k) => if db.contains_key(k@) {
                db[k@]
            } else {
                Set::empty()
            },
            stal::Set::Union(v) => union_of(v@, db, (depth - 1) as nat),
            stal::Set::Inter(v) => inter_of(v@, db, (depth - 1) as nat),
            stal::Set::Diff(v) => if v@.len() == 0 {
                Set::empty()
            } else {
                eval(v@[0], db, (depth - 1) as nat).difference(
                    union_of(v@.skip(1), db, (depth - 1) as nat),
                )
            },
        }
    }
}

/// The union of what each expression denotes.
pub open spec fn union_of(v: Seq<stal::Set>, db: Map<Seq<u8>, Set<usize>>, depth: nat) -> Set<usize>
    decreases depth, v.len(),
{
    if v.len() == 0 {
        Set::empty()
    } else {
        union_of(v.drop_last(), db, depth).union(eval(v.last(), db, depth))
    }
}

/// The intersection of what each expression denotes; nothing for no expressions.
pub open spec fn inter_of(v: Seq<stal::Set>, db: Map<Seq<u8>, Set<usize>>, depth: nat) -> Set<usize>
    decreases depth, v.len(),
{
    if v.len() == 0 {
        Set::empty()
    } else if v.len() == 1 {
        eval(v[0], db, depth)
    } else {
        inter_of(v.drop_last(), db, depth).intersect(eval(v.last(), db, depth))
    }
}

/// Uniting an expression with itself denotes the expression: `find(A) ∪ find(A) ==
/// find(A)`.
pub proof fn lemma_union_idempotent(u: stal::Set, e: stal::Set, db: Map<Seq<u8>, Set<usize>>, depth: nat)
    requires
        u matches stal::Set::Union(v) && v@ == seq![e, e],
    ensures
        eval(u, db, depth + 1) == eval(e, db, depth),
{
    let v = seq![e, e];
    assert(v.drop_last() =~= seq![e]);
    assert(seq![e].drop_last() =~= Seq::<stal::Set>::empty());
    assert(union_of(Seq::<stal::Set>::empty(), db, depth) == Set::<usize>::empty());
    assert(seq![e].last() == e);
    assert(union_of(seq![e], db, depth) =~= eval(e, db, depth));
    assert(union_of(v, db, depth) =~= eval(e, db, depth));
}

proof fn lemma_inter_empty(v: Seq<stal::Set>, db: Map<Seq<u8>, Set<usize>>, depth: nat, i: int)
    requires
        0 <= i < v.len(),
        eval(v[i], db, depth) == Set::<usize>::empty(),
    ensures
        inter_of(v, db, depth) == Set::<usize>::empty(),
    decreases v.len(),
{
    if v.len() == 1 {
    } else if i == v.len() - 1 {
        assert(inter_of(v, db, depth) =~= Set::<usize>::empty());
    } else {
        assert(v.drop_last()[i] == v[i]);
        lemma_inter_empty(v.drop_last(), db, depth, i);
        assert(inter_of(v, db, depth) =~= Set::<usize>::empty());
    }
}

/// Intersecting with an expression that denotes nothing denotes nothing.
pub proof fn lemma_inter_with_empty(s: stal::Set, db: Map<Seq<u8>, Set<usize>>, depth: nat, i: int)
    requires
        s matches stal::Set::Inter(v) && 0 <= i < v@.len() && eval(v@[i], db, depth) == Set::<usize>::empty(),
    ensures
        eval(s, db, depth + 1) == Set::<usize>::empty(),
{
    if let stal::Set::Inter(v) = s {
        lemma_inter_empty(v@, db, depth, i);
    }
}

/// The difference depends on the order of its operands: when `a` and `b` are distinct
/// keys, `find(A).diff(B)` and `find(B).diff(A)` differ on some store.
pub proof fn lemma_diff_not_commutative(d1: stal::Set, d2: stal::Set, a: stal::Set, b: stal::Set)
    requires
        d1 matches stal::Set::Diff(v) && v@ == seq![a, b],
        d2 matches stal::Set::Diff(w) && w@ == seq![b, a],
        a matches stal::Set::Key(ka),
        b matches stal::Set::Key(kb),
        key_bytes(a) != key_bytes(b),
    ensures
        exists|db: Map<Seq<u8>, Set<usize>>| eval(d1, db, 2) != eval(d2, db, 2),
{
    let ka = key_bytes(a);
    let kb = key_bytes(b);
    let db = Map::<Seq<u8>, Set<usize>>::empty().insert(ka, set![1usize]).insert(kb, Set::empty());
    assert(eval(a, db, 1) == set![1usize]);
    assert(eval(b, db, 1) == Set::<usize>::empty());
    assert(seq![a, b].skip(1) =~= seq![b]);
    assert(seq![b, a].skip(1) =~= seq![a]);
    assert(seq![b].drop_last() =~= Seq::<stal::Set>::empty());
    assert(seq![a].drop_last() =~= Seq::<stal::Set>::empty());
    assert(union_of(Seq::<stal::Set>::empty(), db, 1) == Set::<usize>::empty());
    assert(seq![b].last() == b);
    assert(seq![a].last() == a);
    assert(union_of(seq![b], db, 1) =~= Set::<usize>::empty());
    assert(union_of(seq![a], db, 1) =~= set![1usize]);
    assert(eval(d1, db, 2) =~= set![1usize]);
    assert(eval(d2, db, 2) =~= Set::<usize>::empty());
    assert(eval(d1, db, 2).contains(1usize));
}

} // verus!
