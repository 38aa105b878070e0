//! Whole runs of the worker: requests and cancellations on one side, a database
//! thread that takes them up on the other, and what is answered in the end.
use vstd::prelude::*;

use crate::db::{PageModel, QueryModel};
use crate::load::{first_step, CountCacheModel, LoadErrorModel, StepModel};
use crate::outcome::{
    counted_by, faithful, law_loading_ends_in_the_outcome, lemma_cache_after_run, outcome, run,
    Database,
};
use crate::worker::{cancelled, chosen, requested, ReplyModel, RequestModel, WorkerModel};

verus! {

/// What happens between the explorer and the database thread. Publishing lets the
/// thread see the newest number; after it the requests are forwarded one by one. The
/// thread may act in between at any time: it takes up what waits, `count` requests
/// at once, and the database answers as `db` does.
pub enum Move {
    Request { query: QueryModel, add: Option<Seq<char>> },
    Cancel,
    Publish,
    Forward,
    TakeUp { count: nat, db: Database },
}

/// A request that was taken up, the database and the cached count that it met, and
/// the reply.
pub struct Served {
    pub request: RequestModel,
    pub db: Database,
    pub cache: CountCacheModel,
    pub reply: ReplyModel,
}

/// Where a run stands: the worker, the number that the thread sees, what waits for
/// it, its cached count, and all that was asked and served so far.
pub struct RunModel {
    pub worker: WorkerModel,
    pub published: u64,
    pub queue: Seq<RequestModel>,
    pub cache: CountCacheModel,
    pub asked: Seq<RequestModel>,
    pub served: Seq<Served>,
}

/// A new worker and an idle thread.
pub open spec fn idle() -> RunModel {
    RunModel {
        worker: WorkerModel { generation: 0, outbox: Seq::empty() },
        published: 0,
        queue: Seq::empty(),
        cache: CountCacheModel { key: Seq::empty(), params: Seq::empty(), version: 0, count: 0 },
        asked: Seq::empty(),
        served: Seq::empty(),
    }
}

/// What a last step says.
pub open spec fn result_of(last: StepModel) -> Result<PageModel, LoadErrorModel>
    recommends
        last is Loaded || last is Failed,
{
    match last {
        StepModel::Loaded(page) => Ok(page),
        StepModel::Failed(e) => Err(e),
        _ => arbitrary(),
    }
}

/// A request is loaded and answered.
pub open spec fn served(r: RunModel, request: RequestModel, db: Database) -> RunModel {
    let (last, cache) = run(first_step(request.query, request.add), db, r.cache, 7);
    let reply = ReplyModel { id: request.id, result: result_of(last) };
    RunModel { cache, served: r.served.push(Served { request, db, cache: r.cache, reply }), ..r }
}

/// What a move does. Nothing is forwarded before its number is published, and no more
/// is taken up than waits.
pub open spec fn moved_on(r: RunModel, m: Move) -> RunModel {
    match m {
        Move::Request { query, add } => {
            let worker = requested(r.worker, query, add);
            RunModel { worker, asked: r.asked.push(worker.outbox.last()), ..r }
        },
        Move::Cancel => RunModel { worker: cancelled(r.worker), ..r },
        Move::Publish => RunModel { published: r.worker.generation, ..r },
        Move::Forward => if r.published == r.worker.generation && r.worker.outbox.len() > 0 {
            RunModel {
                queue: r.queue.push(r.worker.outbox[0]),
                worker: WorkerModel { outbox: r.worker.outbox.drop_first(), ..r.worker },
                ..r
            }
        } else {
            r
        },
        Move::TakeUp { count, db } => if 0 < count <= r.queue.len() {
            let rest = RunModel { queue: r.queue.skip(count as int), ..r };
            match chosen(r.queue[0], r.queue.subrange(1, count as int), r.published) {
                Some(request) => served(rest, request, db),
                None => rest,
            }
        } else {
            r
        },
    }
}

/// A run after a series of moves.
pub open spec fn played(r: RunModel, moves: Seq<Move>) -> RunModel
    decreases moves.len(),
{
    if moves.len() == 0 {
        r
    } else {
        moved_on(played(r, moves.drop_last()), moves.last())
    }
}

/// The numbers strictly increase.
pub open spec fn increasing(ids: Seq<u64>) -> bool {
    forall|i: int, j: int| 0 <= i < j < ids.len() ==> #[trigger] ids[i] < #[trigger] ids[j]
}

pub open spec fn request_ids(requests: Seq<RequestModel>) -> Seq<u64> {
    Seq::new(requests.len(), |i: int| requests[i].id)
}

/// The numbers of the replies, in the order in which they are sent.
pub open spec fn reply_ids(all: Seq<Served>) -> Seq<u64> {
    Seq::new(all.len(), |i: int| all[i].reply.id)
}

/// All numbers on their way, from the oldest reply to the newest request.
spec fn line(r: RunModel) -> Seq<u64> {
    reply_ids(r.served) + request_ids(r.queue) + request_ids(r.worker.outbox)
}

/// Each was asked for.
spec fn all_asked(r: RunModel) -> bool {
    &&& forall|i: int| 0 <= i < r.queue.len() ==> r.asked.contains(#[trigger] r.queue[i])
    &&& forall|i: int|
        0 <= i < r.worker.outbox.len() ==> r.asked.contains(#[trigger] r.worker.outbox[i])
    &&& forall|i: int|
        0 <= i < r.served.len() ==> r.asked.contains((#[trigger] r.served[i]).request)
            && r.served[i].reply.id == r.served[i].request.id
}

/// The last request, while nothing has followed it, waits as the last or has been
/// served last.
spec fn newest_kept(r: RunModel) -> bool {
    r.asked.len() > 0 && r.asked.last().id == r.worker.generation ==> {
        ||| r.worker.outbox.len() > 0 && r.worker.outbox.last() == r.asked.last()
        ||| r.queue.len() > 0 && r.queue.last() == r.asked.last() && r.published
            == r.worker.generation
        ||| r.served.len() > 0 && r.served.last().request == r.asked.last()
    }
}

spec fn orderly(r: RunModel) -> bool {
    &&& increasing(line(r))
    &&& forall|i: int| 0 <= i < line(r).len() ==> #[trigger] line(r)[i] <= r.worker.generation
    &&& forall|i: int| 0 <= i < r.asked.len() ==> (#[trigger] r.asked[i]).id <= r.worker.generation
    &&& r.published <= r.worker.generation
    &&& all_asked(r)
    &&& newest_kept(r)
}

proof fn lemma_request_keeps_order(r: RunModel, query: QueryModel, add: Option<Seq<char>>)
    requires
        orderly(r),
        r.worker.generation < u64::MAX,
    ensures
        orderly(moved_on(r, Move::Request { query, add })),
{
    let t = moved_on(r, Move::Request { query, add });
    let newest = t.worker.outbox.last();
    assert(line(t) =~= line(r).push(newest.id));
    assert(t.asked =~= r.asked.push(newest));
    assert(t.asked[r.asked.len() as int] == newest);
    assert forall|x: RequestModel| r.asked.contains(x) implies t.asked.contains(x) by {
        let i = choose|i: int| 0 <= i < r.asked.len() && r.asked[i] == x;
        assert(t.asked[i] == x);
    }
    assert forall|i: int| 0 <= i < t.worker.outbox.len() implies t.asked.contains(
        #[trigger] t.worker.outbox[i],
    ) by {
        if i < r.worker.outbox.len() {
            assert(t.worker.outbox[i] == r.worker.outbox[i]);
        }
    }
}

proof fn lemma_forward_keeps_order(r: RunModel)
    requires
        orderly(r),
    ensures
        orderly(moved_on(r, Move::Forward)),
{
    let t = moved_on(r, Move::Forward);
    let out = r.worker.outbox;
    if r.published == r.worker.generation && out.len() > 0 {
        assert(line(t) =~= line(r));
        assert forall|i: int| 0 <= i < t.queue.len() implies t.asked.contains(
            #[trigger] t.queue[i],
        ) by {
            if i < r.queue.len() {
                assert(t.queue[i] == r.queue[i]);
            } else {
                assert(t.queue[i] == out[0]);
            }
        }
        assert forall|i: int| 0 <= i < t.worker.outbox.len() implies t.asked.contains(
            #[trigger] t.worker.outbox[i],
        ) by {
            assert(t.worker.outbox[i] == out[i + 1]);
        }
        if r.asked.len() > 0 && r.asked.last().id == r.worker.generation {
            let n = r.served.len() as int;
            let q = r.queue.len() as int;
            // The numbers in the outbox are the largest, so the newest is there.
            let last = (line(r).len() - 1) as int;
            assert(line(r)[last] == out.last().id);
            if q > 0 {
                assert(line(r)[n + q - 1] == r.queue.last().id);
            }
            if n > 0 {
                assert(line(r)[n - 1] == r.served.last().reply.id);
                assert(r.served[n - 1].reply.id == r.served[n - 1].request.id);
            }
            assert(out.last() == r.asked.last());
        }
    }
}

proof fn lemma_take_up_keeps_order(r: RunModel, count: nat, db: Database)
    requires
        orderly(r),
    ensures
        orderly(moved_on(r, Move::TakeUp { count, db })),
{
    let t = moved_on(r, Move::TakeUp { count, db });
    if 0 < count <= r.queue.len() {
        let n = r.served.len() as int;
        let q = r.queue.len() as int;
        let c = count as int;
        let newer = r.queue.subrange(1, c);
        let newest = r.queue[c - 1];
        if c > 1 {
            assert(newer.last() == newest);
        }
        assert(chosen(r.queue[0], newer, r.published) == if newest.id == r.published {
            Some(newest)
        } else {
            None
        });
        let taken = newest.id == r.published;
        // What is dropped leaves the rest in order.
        let shift = if taken {
            c - 1
        } else {
            c
        };
        assert forall|i: int| 0 <= i < line(t).len() implies #[trigger] line(t)[i] == if i < n {
            line(r)[i]
        } else {
            line(r)[i + shift]
        } by {
            if taken && i == n {
                assert(line(r)[n + c - 1] == newest.id);
            }
        }
        assert(line(t).len() == line(r).len() - shift);
        assert forall|i: int| 0 <= i < t.queue.len() implies t.asked.contains(
            #[trigger] t.queue[i],
        ) by {
            assert(t.queue[i] == r.queue[i + c]);
        }
        assert(r.asked.contains(r.queue[c - 1]));
        if r.asked.len() > 0 && r.asked.last().id == r.worker.generation {
            if r.worker.outbox.len() > 0 && r.worker.outbox.last() == r.asked.last() {
            } else if r.queue.last() == r.asked.last() && r.published == r.worker.generation {
                if c < q {
                    assert(t.queue.last() == r.queue.last());
                }
            } else {
                assert(line(r)[n - 1] == r.served[n - 1].reply.id);
                assert(line(r)[n] == r.queue[0].id);
            }
        }
    }
}

proof fn lemma_played_in_order(moves: Seq<Move>)
    requires
        moves.len() <= u64::MAX,
    ensures
        orderly(played(idle(), moves)),
        played(idle(), moves).worker.generation <= moves.len(),
    decreases moves.len(),
{
    if moves.len() > 0 {
        let r = played(idle(), moves.drop_last());
        lemma_played_in_order(moves.drop_last());
        match moves.last() {
            Move::Request { query, add } => {
                lemma_request_keeps_order(r, query, add);
            },
            Move::Cancel => {
                assert(line(moved_on(r, Move::Cancel)) =~= line(r));
            },
            Move::Publish => {
                assert(line(moved_on(r, Move::Publish)) =~= line(r));
            },
            Move::Forward => {
                lemma_forward_keeps_order(r);
            },
            Move::TakeUp { count, db } => {
                lemma_take_up_keeps_order(r, count, db);
            },
        }
    }
}

/// The replies of a run carry strictly increasing numbers, so that none is sent
/// twice, and each answers a request that was asked for, with its number. (Numbers
/// wrap around after more moves than a `u64` counts.)
pub proof fn law_replies_come_in_order(moves: Seq<Move>)
    requires
        moves.len() <= u64::MAX,
    ensures
        ({
            let r = played(idle(), moves);
            &&& increasing(reply_ids(r.served))
            &&& forall|i: int|
                0 <= i < r.served.len() ==> r.asked.contains((#[trigger] r.served[i]).request)
                    && r.served[i].reply.id == r.served[i].request.id
        }),
{
    let r = played(idle(), moves);
    lemma_played_in_order(moves);
    let ids = reply_ids(r.served);
    assert forall|i: int, j: int| 0 <= i < j < ids.len() implies #[trigger] ids[i]
        < #[trigger] ids[j] by {
        assert(ids[i] == line(r)[i] && ids[j] == line(r)[j]);
    }
}

proof fn lemma_published_rises(moves: Seq<Move>, more: Seq<Move>)
    requires
        moves.len() + more.len() <= u64::MAX,
    ensures
        ({
            let r = played(idle(), moves);
            let t = played(idle(), moves + more);
            &&& r.published <= t.published
            &&& r.served.len() <= t.served.len()
            &&& t.served.take(r.served.len() as int) == r.served
            &&& forall|i: int|
                r.served.len() <= i < t.served.len() ==> (#[trigger] t.served[i]).request.id
                    >= r.published
        }),
    decreases more.len(),
{
    let r = played(idle(), moves);
    let t = played(idle(), moves + more);
    if more.len() == 0 {
        assert(moves + more =~= moves);
        assert(t.served.take(r.served.len() as int) =~= r.served);
    } else {
        let part = moves + more.drop_last();
        let u = played(idle(), part);
        assert((moves + more).drop_last() =~= part);
        assert((moves + more).last() == more.last());
        lemma_published_rises(moves, more.drop_last());
        lemma_played_in_order(part);
        assert(t.served.len() == u.served.len() ==> t.served == u.served);
        if t.served.len() > u.served.len() {
            assert(t.served.take(r.served.len() as int) =~= u.served.take(r.served.len() as int));
            assert(t.served.drop_last() =~= u.served);
            assert forall|i: int| r.served.len() <= i < t.served.len() implies (
            #[trigger] t.served[i]).request.id >= r.published by {
                if i < u.served.len() {
                    assert(t.served[i] == u.served[i]);
                }
            }
        }
    }
}

/// The request has been taken up.
pub open spec fn was_served(r: RunModel, request: RequestModel) -> bool {
    exists|i: int| 0 <= i < r.served.len() && (#[trigger] r.served[i]).request == request
}

/// What has been served stays served, and a request whose number has been passed by
/// a newer request or a cancellation before it is taken up is never taken up: from
/// then on no reply carries a smaller number than the one that the thread saw.
pub proof fn law_superseded_requests_are_never_taken_up(moves: Seq<Move>, more: Seq<Move>)
    requires
        moves.len() + more.len() <= u64::MAX,
    ensures
        ({
            let r = played(idle(), moves);
            let t = played(idle(), moves + more);
            &&& forall|request: RequestModel|
                request.id < r.published && !was_served(r, request) ==> !#[trigger] was_served(
                    t,
                    request,
                )
            &&& r.served.len() <= t.served.len()
            &&& t.served.take(r.served.len() as int) == r.served
            &&& forall|i: int|
                r.served.len() <= i < t.served.len() ==> (#[trigger] t.served[i]).request.id
                    >= r.published
        }),
{
    let r = played(idle(), moves);
    let t = played(idle(), moves + more);
    lemma_published_rises(moves, more);
    assert forall|request: RequestModel|
        request.id < r.published && !was_served(r, request) implies !#[trigger] was_served(
        t,
        request,
    ) by {
        if was_served(t, request) {
            let i = choose|i: int|
                0 <= i < t.served.len() && (#[trigger] t.served[i]).request == request;
            if i < r.served.len() {
                assert(t.served.take(r.served.len() as int)[i] == r.served[i]);
            }
        }
    }
}

/// What the database answers to each take-up agrees: at one version of the data it
/// counts the same.
pub open spec fn steady(r: RunModel) -> bool {
    forall|i: int, j: int, sql: Seq<char>, params: Seq<Seq<char>>|
        #![trigger (r.served[i].db.count)(sql, params), (r.served[j].db.count)(sql, params)]
        0 <= i < r.served.len() && 0 <= j < r.served.len() && r.served[i].db.version is Ok
            && r.served[i].db.version == r.served[j].db.version ==> (r.served[i].db.count)(
            sql,
            params,
        ) == (r.served[j].db.count)(sql, params)
}

/// The cached count, if there is one, was taken from the database of one of the first
/// `n` take-ups.
spec fn from_before(cache: CountCacheModel, all: Seq<Served>, n: int) -> bool {
    cache.key.len() == 0 || exists|k: int|
        0 <= k < n && counted_by(cache, (#[trigger] all[k]).db)
}

spec fn accounted(r: RunModel) -> bool {
    &&& from_before(r.cache, r.served, r.served.len() as int)
    &&& forall|i: int|
        0 <= i < r.served.len() ==> from_before((#[trigger] r.served[i]).cache, r.served, i)
    &&& forall|i: int|
        0 <= i < r.served.len() ==> (#[trigger] r.served[i]).reply.result == result_of(
            run(
                first_step(r.served[i].request.query, r.served[i].request.add),
                r.served[i].db,
                r.served[i].cache,
                7,
            ).0,
        )
}

proof fn lemma_served_is_accounted(r: RunModel, request: RequestModel, db: Database)
    requires
        accounted(r),
    ensures
        accounted(served(r, request, db)),
{
    let t = served(r, request, db);
    let n = r.served.len() as int;
    let first = first_step(request.query, request.add);
    lemma_cache_after_run(first, db, r.cache, 7);
    assert forall|cache: CountCacheModel, m: int|
        m <= n && #[trigger] from_before(cache, r.served, m) implies from_before(
        cache,
        t.served,
        m,
    ) by {
        if cache.key.len() > 0 {
            let k = choose|k: int| 0 <= k < m && counted_by(cache, (#[trigger] r.served[k]).db);
            assert(t.served[k] == r.served[k]);
        }
    }
    assert forall|i: int| 0 <= i < t.served.len() implies from_before(
        (#[trigger] t.served[i]).cache,
        t.served,
        i,
    ) by {
        if i < n {
            assert(t.served[i] == r.served[i]);
            assert(from_before(r.served[i].cache, r.served, i));
        } else {
            assert(from_before(r.cache, r.served, n));
        }
    }
    assert forall|i: int| 0 <= i < t.served.len() implies (#[trigger] t.served[i]).reply.result
        == result_of(
        run(
            first_step(t.served[i].request.query, t.served[i].request.add),
            t.served[i].db,
            t.served[i].cache,
            7,
        ).0,
    ) by {
        if i < n {
            assert(t.served[i] == r.served[i]);
        }
    }
    if t.cache == r.cache {
        assert(from_before(r.cache, r.served, n));
        if r.cache.key.len() > 0 {
            let k = choose|k: int|
                0 <= k < n && counted_by(r.cache, (#[trigger] r.served[k]).db);
            assert(t.served[k] == r.served[k]);
        }
    } else {
        assert(counted_by(t.cache, t.served[n].db));
    }
}

proof fn lemma_played_is_accounted(moves: Seq<Move>)
    ensures
        accounted(played(idle(), moves)),
    decreases moves.len(),
{
    if moves.len() > 0 {
        let r = played(idle(), moves.drop_last());
        lemma_played_is_accounted(moves.drop_last());
        if let Move::TakeUp { count, db } = moves.last() {
            if 0 < count <= r.queue.len() {
                let rest = RunModel { queue: r.queue.skip(count as int), ..r };
                assert(accounted(rest));
                let pick = chosen(r.queue[0], r.queue.subrange(1, count as int), r.published);
                if let Some(request) = pick {
                    lemma_served_is_accounted(rest, request, db);
                }
            }
        }
    }
}

/// Every reply of a run is what loading the request comes to over the database that
/// it met, whatever was loaded and counted before.
pub proof fn law_replies_are_the_outcomes(moves: Seq<Move>)
    requires
        steady(played(idle(), moves)),
    ensures
        ({
            let r = played(idle(), moves);
            forall|i: int|
                0 <= i < r.served.len() ==> (#[trigger] r.served[i]).reply.result == outcome(
                    r.served[i].request.query,
                    r.served[i].request.add,
                    r.served[i].db,
                )
        }),
{
    let r = played(idle(), moves);
    lemma_played_is_accounted(moves);
    assert forall|i: int| 0 <= i < r.served.len() implies (#[trigger] r.served[i]).reply.result
        == outcome(r.served[i].request.query, r.served[i].request.add, r.served[i].db) by {
        let cache = r.served[i].cache;
        let db = r.served[i].db;
        assert(from_before(cache, r.served, i));
        assert(faithful(cache, db)) by {
            if cache.key.len() > 0 {
                let k = choose|k: int| 0 <= k < i && counted_by(cache, (#[trigger] r.served[k]).db);
                assert((r.served[k].db.count)(cache.key, cache.params) == Ok::<usize, Seq<char>>(
                    cache.count,
                ));
                assert(db.version == Ok::<i64, Seq<char>>(cache.version) ==> (
                r.served[i].db.count)(cache.key, cache.params) == (r.served[k].db.count)(
                    cache.key,
                    cache.params,
                ));
            }
        }
        law_loading_ends_in_the_outcome(
            r.served[i].request.query,
            r.served[i].request.add,
            db,
            cache,
        );
    }
}

/// The last request of a run, with no cancellation after it, is answered once nothing
/// waits any more, and no reply comes after its own.
pub proof fn law_last_request_is_answered(moves: Seq<Move>)
    requires
        moves.len() <= u64::MAX,
        played(idle(), moves).asked.len() > 0,
        played(idle(), moves).asked.last().id == played(idle(), moves).worker.generation,
        played(idle(), moves).worker.outbox.len() == 0,
        played(idle(), moves).queue.len() == 0,
    ensures
        ({
            let r = played(idle(), moves);
            &&& r.served.len() > 0
            &&& r.served.last().request == r.asked.last()
            &&& r.served.last().reply.id == r.asked.last().id
            &&& steady(r) ==> r.served.last().reply.result == outcome(
                r.asked.last().query,
                r.asked.last().add,
                r.served.last().db,
            )
        }),
{
    let r = played(idle(), moves);
    lemma_played_in_order(moves);
    assert(r.served[r.served.len() - 1].reply.id == r.served[r.served.len() - 1].request.id);
    if steady(r) {
        law_replies_are_the_outcomes(moves);
    }
}

proof fn lemma_played_on(r: RunModel, a: Seq<Move>, b: Seq<Move>)
    ensures
        played(r, a + b) == played(played(r, a), b),
    decreases b.len(),
{
    if b.len() == 0 {
        assert(a + b =~= a);
    } else {
        assert((a + b).drop_last() =~= a + b.drop_last());
        lemma_played_on(r, a, b.drop_last());
    }
}

/// The moves that bring all that was asked to the database: the newest number is
/// published, every request is forwarded, and all that waits is taken up.
pub open spec fn draining(r: RunModel, db: Database) -> Seq<Move> {
    seq![Move::Publish] + Seq::new(r.worker.outbox.len(), |i: int| Move::Forward) + seq![
        Move::TakeUp { count: r.queue.len() + r.worker.outbox.len(), db },
    ]
}

proof fn lemma_forwarded(r: RunModel, n: nat)
    requires
        r.published == r.worker.generation,
        n <= r.worker.outbox.len(),
    ensures
        played(r, Seq::new(n, |i: int| Move::Forward)) == (RunModel {
            queue: r.queue + r.worker.outbox.take(n as int),
            worker: WorkerModel { outbox: r.worker.outbox.skip(n as int), ..r.worker },
            ..r
        }),
    decreases n,
{
    let out = r.worker.outbox;
    let moves = Seq::new(n, |i: int| Move::Forward);
    if n == 0 {
        assert(moves =~= Seq::empty());
        assert(r.queue + out.take(0) =~= r.queue);
        assert(out.skip(0) =~= out);
    } else {
        let fewer = Seq::new((n - 1) as nat, |i: int| Move::Forward);
        lemma_forwarded(r, (n - 1) as nat);
        assert(moves.drop_last() =~= fewer);
        assert(moves.last() == Move::Forward);
        assert(out.skip(n - 1)[0] == out[n - 1]);
        assert(out.skip(n - 1).drop_first() =~= out.skip(n as int));
        assert((r.queue + out.take(n - 1)).push(out[n - 1]) =~= r.queue + out.take(n as int));
    }
}

/// Every run can be brought to its end: after the draining moves nothing waits, and
/// nothing else was asked or cancelled.
pub proof fn law_runs_can_be_drained(moves: Seq<Move>, db: Database)
    ensures
        ({
            let r = played(idle(), moves);
            let t = played(idle(), moves + draining(r, db));
            &&& t.worker.outbox.len() == 0
            &&& t.queue.len() == 0
            &&& t.asked == r.asked
            &&& t.worker.generation == r.worker.generation
        }),
{
    let r = played(idle(), moves);
    let n = r.worker.outbox.len();
    let forwards = Seq::new(n, |i: int| Move::Forward);
    let take = Move::TakeUp { count: r.queue.len() + n, db };
    let published = RunModel { published: r.worker.generation, ..r };
    lemma_played_on(idle(), moves, draining(r, db));
    lemma_played_on(r, seq![Move::Publish] + forwards, seq![take]);
    lemma_played_on(r, seq![Move::Publish], forwards);
    reveal_with_fuel(played, 2);
    assert(seq![Move::Publish].drop_last() =~= Seq::empty());
    assert(seq![take].drop_last() =~= Seq::empty());
    assert(played(r, seq![Move::Publish]) == published);
    lemma_forwarded(published, n);
}

/// The last request of a run, with no cancellation after it, is answered once the run
/// is drained, with what loading it comes to.
pub proof fn law_last_request_gets_its_reply(moves: Seq<Move>, db: Database)
    requires
        moves.len() + draining(played(idle(), moves), db).len() <= u64::MAX,
        played(idle(), moves).asked.len() > 0,
        played(idle(), moves).asked.last().id == played(idle(), moves).worker.generation,
    ensures
        ({
            let r = played(idle(), moves);
            let t = played(idle(), moves + draining(r, db));
            &&& t.served.len() > 0
            &&& t.served.last().request == r.asked.last()
            &&& t.served.last().reply.id == r.asked.last().id
            &&& steady(t) ==> t.served.last().reply.result == outcome(
                r.asked.last().query,
                r.asked.last().add,
                t.served.last().db,
            )
        }),
{
    let r = played(idle(), moves);
    law_runs_can_be_drained(moves, db);
    law_last_request_is_answered(moves + draining(r, db));
}

} // verus!
