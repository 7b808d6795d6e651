//! The queue that decides which file is played next: a playlist, or a shuffle
//! bag that plays every sound before it repeats any.

use rand::seq::SliceRandom;
use vstd::prelude::*;

use crate::paths::{lemma_no_duplicates, path_views, strictly_ascending, PathView, SoundPath};
use crate::settings::PlaybackOrder;

verus! {

/// The files in the order in which they are played, how many of them have been
/// played, and what the queue was filled for.
pub struct PlayQueue {
    pub bag: Vec<SoundPath>,
    pub index: usize,
    pub source: Vec<SoundPath>,
    pub order: PlaybackOrder,
}

/// The queue, with paths as sequences of components.
#[verifier::ext_equal]
pub struct QueueView {
    pub bag: Seq<PathView>,
    pub index: int,
    pub source: Seq<PathView>,
    pub order: PlaybackOrder,
}

impl View for PlayQueue {
    type V = QueueView;

    open spec fn view(&self) -> QueueView {
        QueueView {
            bag: path_views(self.bag@),
            index: self.index as int,
            source: path_views(self.source@),
            order: self.order,
        }
    }
}

/// A queue that has nothing to play.
pub open spec fn empty_queue() -> QueueView {
    QueueView {
        bag: Seq::empty(),
        index: 0,
        source: Seq::empty(),
        order: PlaybackOrder::Random,
    }
}

/// The bag holds the files: in their order, or for a random order in any.
pub open spec fn is_bag(bag: Seq<PathView>, files: Seq<PathView>, order: PlaybackOrder) -> bool {
    match order {
        PlaybackOrder::InOrder => bag == files,
        PlaybackOrder::Random => bag.to_multiset() == files.to_multiset(),
    }
}

/// The queue was filled for something else, or all of it has been played.
pub open spec fn is_stale(queue: QueueView, files: Seq<PathView>, order: PlaybackOrder) -> bool {
    files != queue.source || order != queue.order || queue.index >= queue.bag.len()
}

pub open spec fn refilled(
    bag: Seq<PathView>,
    files: Seq<PathView>,
    order: PlaybackOrder,
) -> QueueView {
    QueueView { bag, index: 0, source: files, order }
}

/// One request: the queue after it, and the file to play. Without files nothing
/// happens; `bag` is what a stale queue is filled with.
pub open spec fn queue_step(
    queue: QueueView,
    files: Seq<PathView>,
    order: PlaybackOrder,
    bag: Seq<PathView>,
) -> (QueueView, Option<PathView>) {
    if files.len() == 0 {
        (queue, None)
    } else {
        let full = if is_stale(queue, files, order) {
            refilled(bag, files, order)
        } else {
            queue
        };
        (QueueView { index: full.index + 1, ..full }, Some(full.bag[full.index]))
    }
}

/// Calls `rand::seq::SliceRandom::shuffle` with the generator of `rand::rng`. It
/// rearranges the files: none is lost, none is added. Which arrangement comes out
/// is left to chance, so nothing is said of it. The generator panics where the
/// operating system has no seed for it, whatever the files are.
#[verifier::external_body]
fn shuffle(files: &mut Vec<SoundPath>)
    ensures
        path_views(final(files)@).to_multiset() == path_views(old(files)@).to_multiset(),
{
    files.shuffle(&mut rand::rng());
}

fn same_files(a: &Vec<SoundPath>, b: &Vec<SoundPath>) -> (same: bool)
    ensures
        same == (path_views(a@) == path_views(b@)),
{
    let ghost left = path_views(a@);
    let ghost right = path_views(b@);
    if a.len() != b.len() {
        assert(left.len() != right.len());
        return false;
    }
    let mut i: usize = 0;
    while i < a.len()
        invariant
            i <= a@.len(),
            a@.len() == b@.len(),
            left == path_views(a@),
            right == path_views(b@),
            forall|j: int| 0 <= j < i ==> left[j] == right[j],
        decreases a.len() - i,
    {
        if !a[i].same(&b[i]) {
            assert(left[i as int] != right[i as int]);
            return false;
        }
        i += 1;
    }
    assert(left == right);
    true
}

fn copy_files(files: &Vec<SoundPath>) -> (copies: Vec<SoundPath>)
    ensures
        path_views(copies@) == path_views(files@),
{
    let mut copies: Vec<SoundPath> = Vec::new();
    let mut i: usize = 0;
    while i < files.len()
        invariant
            i <= files@.len(),
            copies@.len() == i,
            forall|j: int| 0 <= j < i ==> (#[trigger] copies@[j])@ == files@[j]@,
        decreases files.len() - i,
    {
        copies.push(files[i].copy());
        i += 1;
    }
    assert(path_views(copies@) == path_views(files@));
    copies
}

impl PlayQueue {
    /// A queue that has nothing to play yet.
    pub fn new() -> (queue: PlayQueue)
        ensures
            queue@ == empty_queue(),
    {
        let queue = PlayQueue {
            bag: Vec::new(),
            index: 0,
            source: Vec::new(),
            order: PlaybackOrder::Random,
        };
        assert(queue@ =~= empty_queue());
        queue
    }

    /// Whether the queue has to be filled before it can serve a request.
    pub fn needs_refill(&self, files: &Vec<SoundPath>, order: PlaybackOrder) -> (stale: bool)
        ensures
            stale == is_stale(self@, path_views(files@), order),
    {
        !same_files(files, &self.source) || order != self.order || self.index >= self.bag.len()
    }

    /// Fills the queue with a bag.
    pub fn refill(&mut self, bag: Vec<SoundPath>, files: Vec<SoundPath>, order: PlaybackOrder)
        ensures
            final(self)@ == refilled(path_views(bag@), path_views(files@), order),
    {
        self.bag = bag;
        self.index = 0;
        self.source = files;
        self.order = order;
    }

    /// Takes the next file out of the bag.
    pub fn take(&mut self) -> (file: SoundPath)
        requires
            old(self).index < old(self).bag@.len(),
        ensures
            file@ == old(self)@.bag[old(self)@.index],
            final(self)@ == (QueueView { index: old(self)@.index + 1, ..old(self)@ }),
    {
        assert(self.index < self.bag.len());
        let file = self.bag[self.index].copy();
        self.index = self.index + 1;
        file
    }

    /// The file to play for a request; `None` where there are no files.
    pub fn next(&mut self, files: Vec<SoundPath>, order: PlaybackOrder) -> (file: Option<SoundPath>)
        ensures
            exists|bag: Seq<PathView>| #[trigger]
                is_bag(bag, path_views(files@), order) && queue_step(
                    old(self)@,
                    path_views(files@),
                    order,
                    bag,
                ) == (
                    final(self)@,
                    match file {
                        Some(file) => Some(file@),
                        None => None,
                    },
                ),
    {
        let ghost before = self@;
        let ghost wanted = path_views(files@);
        if files.len() == 0 {
            assert(is_bag(wanted, wanted, order));
            return None;
        }
        let mut bag = copy_files(&files);
        if self.needs_refill(&files, order) {
            if order == PlaybackOrder::Random {
                shuffle(&mut bag);
            }
            let ghost filled = path_views(bag@);
            assert(is_bag(filled, wanted, order));
            proof {
                lemma_bag_length(filled, wanted, order);
            }
            self.refill(bag, files, order);
            assert(self.bag@.len() == self@.bag.len());
            let file = self.take();
            assert(queue_step(before, wanted, order, filled) == (self@, Some(file@)));
            return Some(file);
        }
        assert(is_bag(wanted, wanted, order));
        let file = self.take();
        assert(queue_step(before, wanted, order, wanted) == (self@, Some(file@)));
        Some(file)
    }
}

/// A bag holds as much as what it was filled from.
proof fn lemma_bag_length(bag: Seq<PathView>, files: Seq<PathView>, order: PlaybackOrder)
    requires
        is_bag(bag, files, order),
    ensures
        bag.len() == files.len(),
{
    broadcast use vstd::seq_lib::group_to_multiset_ensures;

    assert(bag.to_multiset().len() == files.to_multiset().len());
}

// ── Laws ─────────────────────────────────────────────────────────────

/// A request, and what a stale queue is filled with to serve it.
pub struct Request {
    pub files: Seq<PathView>,
    pub order: PlaybackOrder,
    pub bag: Seq<PathView>,
}

/// The queue after a series of requests, and the files played.
pub open spec fn run(queue: QueueView, requests: Seq<Request>) -> (QueueView, Seq<PathView>)
    decreases requests.len(),
{
    if requests.len() == 0 {
        (queue, Seq::empty())
    } else {
        let (before, played) = run(queue, requests.drop_last());
        let request = requests.last();
        let (after, file) = queue_step(before, request.files, request.order, request.bag);
        (
            after,
            match file {
                Some(file) => played.push(file),
                None => played,
            },
        )
    }
}

/// Every request is for these files in this order, or for no files at all (in
/// whatever order).
pub open spec fn all_ask_for(
    requests: Seq<Request>,
    files: Seq<PathView>,
    order: PlaybackOrder,
) -> bool {
    forall|i: int|
        0 <= i < requests.len() ==> (#[trigger] requests[i]).files.len() == 0 || (requests[i].files
            == files && requests[i].order == order && is_bag(requests[i].bag, files, order))
}

/// The requests that are for files.
pub open spec fn asking(requests: Seq<Request>) -> Seq<Request> {
    requests.filter(|request: Request| request.files.len() > 0)
}

/// The queue after a number of requests for the same files in the same order,
/// and the files played. `bags(n)` is what the queue is filled with if it is
/// stale at the request with the number `n`.
spec fn session(
    queue: QueueView,
    files: Seq<PathView>,
    order: PlaybackOrder,
    bags: spec_fn(int) -> Seq<PathView>,
    requests: nat,
) -> (QueueView, Seq<PathView>)
    decreases requests,
{
    if requests == 0 {
        (queue, Seq::empty())
    } else {
        let number = (requests - 1) as nat;
        let (before, played) = session(queue, files, order, bags, number);
        let (after, file) = queue_step(before, files, order, bags(number as int));
        (after, played.push(file->0))
    }
}

/// The bags of the requests that are for files, by their numbers.
spec fn bags_of(requests: Seq<Request>, files: Seq<PathView>) -> spec_fn(int) -> Seq<PathView> {
    |n: int|
        if 0 <= n < asking(requests).len() {
            asking(requests)[n].bag
        } else {
            files
        }
}

/// Requests for nothing leave no trace.
proof fn lemma_run_is_session(
    queue: QueueView,
    files: Seq<PathView>,
    order: PlaybackOrder,
    requests: Seq<Request>,
    bags: spec_fn(int) -> Seq<PathView>,
)
    requires
        files.len() > 0,
        all_ask_for(requests, files, order),
        forall|n: int|
            0 <= n < asking(requests).len() ==> #[trigger] bags(n) == asking(requests)[n].bag,
    ensures
        run(queue, requests) == session(queue, files, order, bags, asking(requests).len()),
    decreases requests.len(),
{
    reveal(Seq::filter);
    if requests.len() > 0 {
        let rest = requests.drop_last();
        let request = requests.last();
        assert(request == requests[requests.len() - 1]);
        assert forall|i: int| 0 <= i < rest.len() implies (#[trigger] rest[i]).files.len() == 0 || (
        rest[i].files == files && rest[i].order == order && is_bag(rest[i].bag, files, order)) by {
            assert(rest[i] == requests[i]);
        }
        assert forall|n: int| 0 <= n < asking(rest).len() implies #[trigger] bags(n) == asking(
            rest,
        )[n].bag by {
            assert(asking(requests)[n] == asking(rest)[n]);
        }
        lemma_run_is_session(queue, files, order, rest, bags);
        if request.files.len() > 0 {
            assert(asking(requests) == asking(rest).push(request));
            assert(bags(asking(rest).len() as int) == request.bag);
        }
    }
}

proof fn lemma_asking_bags(
    requests: Seq<Request>,
    files: Seq<PathView>,
    order: PlaybackOrder,
    n: int,
)
    requires
        all_ask_for(requests, files, order),
    ensures
        is_bag(bags_of(requests, files)(n), files, order),
{
    let keep = |request: Request| request.files.len() > 0;
    if 0 <= n < asking(requests).len() {
        let request = asking(requests)[n];
        requests.lemma_filter_pred(keep, n);
        assert(asking(requests).contains(request));
        requests.lemma_filter_contains_rev(keep, request);
        let i = choose|i: int| 0 <= i < requests.len() && requests[i] == request;
        assert(requests[i].files.len() > 0);
    }
}

/// The request at which the bag was filled that a request is served from.
spec fn filled_at(number: int, size: int) -> int {
    number - number % size
}

proof fn lemma_session(
    queue: QueueView,
    files: Seq<PathView>,
    order: PlaybackOrder,
    bags: spec_fn(int) -> Seq<PathView>,
    requests: nat,
)
    requires
        files.len() > 0,
        is_stale(queue, files, order),
        forall|n: int| #[trigger] is_bag(bags(n), files, order),
        requests > 0,
    ensures
        ({
            let size = files.len() as int;
            let last = requests - 1;
            let (after, played) = session(queue, files, order, bags, requests);
            &&& after.source == files
            &&& after.order == order
            &&& after.bag == bags(filled_at(last, size))
            &&& after.bag.len() == size
            &&& after.index == last % size + 1
            &&& played.len() == requests
            &&& forall|n: int|
                0 <= n < requests ==> #[trigger] played[n] == bags(filled_at(n, size))[n % size]
        }),
    decreases requests,
{
    let size = files.len() as int;
    let last = requests - 1;
    let (before, earlier) = session(queue, files, order, bags, last as nat);
    let bag = bags(last);
    assert(is_bag(bag, files, order));
    lemma_bag_length(bag, files, order);
    if last == 0 {
        assert(0int % size == 0) by {
            vstd::arithmetic::div_mod::lemma_small_mod(0, size as nat);
        }
    } else {
        lemma_session(queue, files, order, bags, last as nat);
        lemma_next_remainder(last - 1, size);
    }
}

proof fn lemma_next_remainder(number: int, size: int)
    requires
        0 <= number,
        0 < size,
    ensures
        (number + 1) % size == if number % size + 1 == size {
            0
        } else {
            number % size + 1
        },
{
    let quotient = number / size;
    let remainder = number % size;
    vstd::arithmetic::div_mod::lemma_fundamental_div_mod(number, size);
    vstd::arithmetic::mul::lemma_mul_is_commutative(size, quotient);
    if remainder + 1 == size {
        assert(number + 1 == (quotient + 1) * size + 0) by {
            vstd::arithmetic::mul::lemma_mul_is_distributive_add_other_way(size, quotient, 1);
        }
        vstd::arithmetic::div_mod::lemma_fundamental_div_mod_converse(
            number + 1,
            size,
            quotient + 1,
            0,
        );
    } else {
        vstd::arithmetic::div_mod::lemma_fundamental_div_mod_converse(
            number + 1,
            size,
            quotient,
            remainder + 1,
        );
    }
}

/// The files played over a series of requests, one by one.
proof fn lemma_run(
    queue: QueueView,
    files: Seq<PathView>,
    order: PlaybackOrder,
    requests: Seq<Request>,
)
    requires
        files.len() > 0,
        is_stale(queue, files, order),
        all_ask_for(requests, files, order),
    ensures
        ({
            let size = files.len() as int;
            let bags = bags_of(requests, files);
            let played = run(queue, requests).1;
            &&& forall|n: int| #[trigger] is_bag(bags(n), files, order)
            &&& played.len() == asking(requests).len()
            &&& forall|n: int|
                0 <= n < played.len() ==> #[trigger] played[n] == bags(filled_at(n, size))[n % size]
        }),
{
    let bags = bags_of(requests, files);
    assert forall|n: int| #[trigger] is_bag(bags(n), files, order) by {
        lemma_asking_bags(requests, files, order, n);
    }
    lemma_run_is_session(queue, files, order, requests, bags);
    if asking(requests).len() > 0 {
        lemma_session(queue, files, order, bags, asking(requests).len());
    }
}

/// Every sound is played before any is repeated: from a fresh start, each round
/// of as many requests as there are files plays each of the files, and where no
/// file is listed twice (as in every selection), none is played twice in a round.
/// Requests for nothing in between play nothing and disturb no round.
pub proof fn law_every_round_plays_each_file(
    queue: QueueView,
    files: Seq<PathView>,
    order: PlaybackOrder,
    requests: Seq<Request>,
    rounds: nat,
)
    requires
        files.len() > 0,
        is_stale(queue, files, order),
        all_ask_for(requests, files, order),
        (rounds + 1) * files.len() <= asking(requests).len(),
    ensures
        ({
            let start = rounds * files.len() as int;
            let played = run(queue, requests).1;
            let round = played.subrange(start, start + files.len());
            &&& played.len() == asking(requests).len()
            &&& round.to_multiset() == files.to_multiset()
            &&& files.no_duplicates() ==> round.no_duplicates()
            &&& strictly_ascending(files) ==> round.no_duplicates()
        }),
{
    let size = files.len() as int;
    let start = rounds * size;
    assert((rounds + 1) * size == start + size) by {
        vstd::arithmetic::mul::lemma_mul_is_distributive_add_other_way(size, rounds as int, 1);
    }
    assert(start >= 0) by {
        vstd::arithmetic::mul::lemma_mul_nonnegative(rounds as int, size);
    }
    let bags = bags_of(requests, files);
    lemma_run(queue, files, order, requests);
    let played = run(queue, requests).1;
    let round = played.subrange(start, start + size);
    let bag = bags(start);
    assert(is_bag(bag, files, order));
    lemma_bag_length(bag, files, order);
    assert forall|i: int| 0 <= i < size implies round[i] == bag[i] by {
        let n = start + i;
        vstd::arithmetic::div_mod::lemma_fundamental_div_mod_converse(n, size, rounds as int, i);
        assert(filled_at(n, size) == start);
        assert(played[n] == bags(filled_at(n, size))[n % size]);
    }
    assert(round == bag);
    if strictly_ascending(files) {
        lemma_no_duplicates(files);
    }
    if files.no_duplicates() {
        files.lemma_multiset_has_no_duplicates();
        bag.lemma_multiset_has_no_duplicates_conv();
    }
}

/// A playlist plays the files in their order, over and over, whatever requests for
/// nothing come in between.
pub proof fn law_a_playlist_goes_round(
    queue: QueueView,
    files: Seq<PathView>,
    requests: Seq<Request>,
    n: int,
)
    requires
        files.len() > 0,
        is_stale(queue, files, PlaybackOrder::InOrder),
        all_ask_for(requests, files, PlaybackOrder::InOrder),
        0 <= n < asking(requests).len(),
    ensures
        run(queue, requests).1.len() == asking(requests).len(),
        run(queue, requests).1[n] == files[n % files.len() as int],
{
    lemma_run(queue, files, PlaybackOrder::InOrder, requests);
    let bags = bags_of(requests, files);
    let size = files.len() as int;
    assert(is_bag(bags(filled_at(n, size)), files, PlaybackOrder::InOrder));
}

/// Every bag holds the files of its request.
pub open spec fn are_honest(requests: Seq<Request>) -> bool {
    forall|i: int|
        0 <= i < requests.len() ==> is_bag(
            (#[trigger] requests[i]).bag,
            requests[i].files,
            requests[i].order,
        )
}

proof fn lemma_used_queue(requests: Seq<Request>)
    requires
        are_honest(requests),
    ensures
        ({
            let queue = run(empty_queue(), requests).0;
            &&& is_bag(queue.bag, queue.source, queue.order)
            &&& 0 <= queue.index <= queue.bag.len()
        }),
    decreases requests.len(),
{
    if requests.len() > 0 {
        let rest = requests.drop_last();
        let request = requests.last();
        assert(request == requests[requests.len() - 1]);
        assert forall|i: int| 0 <= i < rest.len() implies is_bag(
            (#[trigger] rest[i]).bag,
            rest[i].files,
            rest[i].order,
        ) by {
            assert(rest[i] == requests[i]);
        }
        lemma_used_queue(rest);
        lemma_bag_length(request.bag, request.files, request.order);
    }
}

/// What is played is always one of the files of the request that it is played for,
/// whatever was asked for before; and something is played just where there are
/// files.
pub proof fn law_only_what_is_asked_for_is_played(requests: Seq<Request>, request: Request)
    requires
        are_honest(requests),
        is_bag(request.bag, request.files, request.order),
    ensures
        ({
            let queue = run(empty_queue(), requests).0;
            let (after, file) = queue_step(queue, request.files, request.order, request.bag);
            &&& file is Some <==> request.files.len() > 0
            &&& file matches Some(file) ==> request.files.contains(file)
            &&& file is None ==> after == queue
        }),
{
    broadcast use vstd::seq_lib::group_to_multiset_ensures;

    let queue = run(empty_queue(), requests).0;
    lemma_used_queue(requests);
    lemma_bag_length(request.bag, request.files, request.order);
    if request.files.len() > 0 {
        let bag = if is_stale(queue, request.files, request.order) {
            request.bag
        } else {
            queue.bag
        };
        let at = if is_stale(queue, request.files, request.order) {
            0
        } else {
            queue.index
        };
        let file = bag[at];
        assert(bag.contains(file));
        assert(bag.to_multiset().count(file) > 0);
        assert(is_bag(bag, request.files, request.order));
        assert(request.files.to_multiset().count(file) > 0);
    }
}

/// Another selection starts anew: a request for other files, or in another order,
/// than the one served before it plays the first file of a fresh bag of its own, and
/// goes on with that bag. Requests for nothing in between make no difference.
pub proof fn law_another_selection_starts_anew(
    queue: QueueView,
    served: Request,
    nothing: Seq<Request>,
    request: Request,
)
    requires
        served.files.len() > 0,
        forall|i: int| 0 <= i < nothing.len() ==> (#[trigger] nothing[i]).files.len() == 0,
        request.files.len() > 0,
        request.files != served.files || request.order != served.order,
    ensures
        ({
            let before = run(queue, seq![served] + nothing).0;
            let (after, file) = queue_step(before, request.files, request.order, request.bag);
            &&& file == Some(request.bag[0])
            &&& after.bag == request.bag && after.index == 1
            &&& after.source == request.files && after.order == request.order
        }),
{
    lemma_nothing_changes_nothing(queue, served, nothing);
}

proof fn lemma_nothing_changes_nothing(queue: QueueView, served: Request, nothing: Seq<Request>)
    requires
        served.files.len() > 0,
        forall|i: int| 0 <= i < nothing.len() ==> (#[trigger] nothing[i]).files.len() == 0,
    ensures
        ({
            let before = run(queue, seq![served] + nothing).0;
            before.source == served.files && before.order == served.order
        }),
    decreases nothing.len(),
{
    let all = seq![served] + nothing;
    if nothing.len() == 0 {
        assert(all.drop_last() == Seq::<Request>::empty());
        assert(all.last() == served);
        assert(run(queue, all.drop_last()).0 == queue);
    } else {
        let rest = nothing.drop_last();
        assert forall|i: int| 0 <= i < rest.len() implies (#[trigger] rest[i]).files.len() == 0 by {
            assert(rest[i] == nothing[i]);
        }
        lemma_nothing_changes_nothing(queue, served, rest);
        assert(all.drop_last() == seq![served] + rest);
        assert(all.last() == nothing[nothing.len() - 1]);
    }
}

/// The same selection goes on: as long as the bag is not empty, the next file in it
/// is played, and nothing of the bag is passed over or mixed anew.
pub proof fn law_the_same_selection_goes_on(queue: QueueView, bag: Seq<PathView>)
    requires
        queue.source.len() > 0,
        0 <= queue.index < queue.bag.len(),
    ensures
        ({
            let (after, file) = queue_step(queue, queue.source, queue.order, bag);
            &&& file == Some(queue.bag[queue.index])
            &&& after.bag == queue.bag && after.index == queue.index + 1
            &&& after.source == queue.source && after.order == queue.order
            &&& !is_stale(queue, queue.source, queue.order)
        }),
{
}

/// When all of a bag has been played, the next request opens a fresh one.
pub proof fn law_an_empty_bag_is_filled(queue: QueueView, bag: Seq<PathView>)
    requires
        queue.source.len() > 0,
        queue.index >= queue.bag.len(),
    ensures
        queue_step(queue, queue.source, queue.order, bag).1 == Some(bag[0]),
        is_stale(queue, queue.source, queue.order),
{
}

/// A bag holds every file as often as it was asked for; a playlist holds them in
/// their order.
pub proof fn law_a_bag_holds_the_files(
    bag: Seq<PathView>,
    files: Seq<PathView>,
    order: PlaybackOrder,
)
    requires
        is_bag(bag, files, order),
    ensures
        bag.len() == files.len(),
        forall|file: PathView| #[trigger] bag.contains(file) <==> files.contains(file),
        forall|file: PathView|
            bag.to_multiset().count(file) == #[trigger] files.to_multiset().count(file),
        order == PlaybackOrder::InOrder ==> bag == files,
{
    broadcast use vstd::seq_lib::group_to_multiset_ensures;

    lemma_bag_length(bag, files, order);
    assert forall|file: PathView| #[trigger] bag.contains(file) <==> files.contains(file) by {
        assert(bag.contains(file) <==> bag.to_multiset().count(file) > 0);
        assert(files.contains(file) <==> files.to_multiset().count(file) > 0);
    }
}

/// A queue is seen whole: what it holds, how far it has come, and what it was filled
/// for.
pub proof fn law_queues_are_seen_whole(queue: PlayQueue)
    ensures
        queue@.bag == path_views(queue.bag@),
        queue@.index == queue.index,
        queue@.source == path_views(queue.source@),
        queue@.order == queue.order,
{
}

/// A queue that was filled has played nothing yet, and is not stale for what it was
/// filled for.
pub proof fn law_a_filled_queue_is_fresh(
    bag: Seq<PathView>,
    files: Seq<PathView>,
    order: PlaybackOrder,
    others: Seq<PathView>,
    other: PlaybackOrder,
)
    requires
        bag.len() > 0,
    ensures
        ({
            let queue = refilled(bag, files, order);
            &&& queue.bag == bag && queue.index == 0
            &&& is_stale(queue, others, other) <==> others != files || other != order
        }),
        empty_queue().bag.len() == 0 && empty_queue().source.len() == 0,
{
}

} // verus!
