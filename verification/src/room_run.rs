//! What holds of a refresh from its start to its end, whatever the host answers.

use vstd::prelude::*;

use crate::conn::ConnEvent;
use crate::istr::Istr;
use crate::room::{api_address, authority_with, GameData, PartialGameData, RoomStatus};
use crate::room_job::{room_run, room_step, RoomAction, RoomJob, RoomPhase, RoomReply};

verus! {

broadcast use vstd::string::group_string_axioms;

/// Whether a room's list has a game with a checksum.
pub open spec fn lists(
    listed: Seq<(Istr, PartialGameData)>,
    game: Seq<char>,
    checksum: Seq<char>,
) -> bool {
    exists|k: int|
        0 <= k < listed.len() && (#[trigger] listed[k]).0@ == game && listed[k].1.checksum@
            == checksum
}

/// Whether step `i` brings the package of a game from the cache: it was looked for
/// under the checksum that the list has for the game, and it has that checksum.
pub open spec fn brought_from_cache(
    replies: Seq<RoomReply>,
    actions: Seq<RoomAction>,
    i: int,
    listed: Seq<(Istr, PartialGameData)>,
    game: Seq<char>,
    data: GameData,
) -> bool {
    &&& actions[i - 1] is LoadPackage
    &&& actions[i - 1]->LoadPackage_0@ == game
    &&& actions[i - 1]->LoadPackage_1@ == data.checksum@
    &&& lists(listed, game, data.checksum@)
    &&& replies[i] == RoomReply::Loaded(Some(data))
}

/// Whether step `i` brings the package of a game from the host: it was fetched
/// from the address of the checksum that the list has for the game.
pub open spec fn brought_from_host(
    replies: Seq<RoomReply>,
    actions: Seq<RoomAction>,
    i: int,
    job: RoomJob,
    game: Seq<char>,
    data: GameData,
) -> bool {
    &&& actions[i - 1] is FetchPackage
    &&& replies[i] == RoomReply::Package(Ok(data))
    &&& exists|k: int|
        0 <= k < job.listed@.len() && (#[trigger] job.listed@[k]).0@ == game
            && actions[i - 1]->FetchPackage_0@ == job.address.scheme@ + "://"@ + job.address.host@
            + "/api/datapackage/"@ + job.listed@[k].1.checksum@
}

/// Whether one of the first `n` steps has brought the package of a game.
pub open spec fn brought(
    replies: Seq<RoomReply>,
    actions: Seq<RoomAction>,
    n: int,
    job: RoomJob,
    game: Seq<char>,
    data: GameData,
) -> bool {
    exists|i: int|
        1 <= i < n && #[trigger] brought_by(replies, actions, i, job, game, data)
}

/// Whether step `i` brings the package of a game.
pub open spec fn brought_by(
    replies: Seq<RoomReply>,
    actions: Seq<RoomAction>,
    i: int,
    job: RoomJob,
    game: Seq<char>,
    data: GameData,
) -> bool {
    ||| brought_from_cache(replies, actions, i, job.listed@, game, data)
    ||| brought_from_host(replies, actions, i, job, game, data)
}

/// Whether one of the first `n` steps has a package written to the cache.
pub open spec fn written(actions: Seq<RoomAction>, n: int, game: Seq<char>) -> bool {
    exists|i: int|
        0 <= i < n && (#[trigger] actions[i]) is StorePackage && actions[i]->StorePackage_0@ == game
}

/// Whether a game is among those that were not in the cache.
pub open spec fn is_missing(job: RoomJob, game: Seq<char>) -> bool {
    exists|m: int| 0 <= m < job.missing@.len() && (#[trigger] job.missing@[m]).0@ == game
}

/// Whether the first `n` games of the list are at hand or known to be missing.
spec fn looked_for(job: RoomJob, n: int) -> bool {
    forall|k: int|
        0 <= k < n ==> job.packages@.contains_key((#[trigger] job.listed@[k]).0@) || is_missing(
            job,
            job.listed@[k].0@,
        )
}

/// Whether the first `n` missing games are at hand.
spec fn downloaded(job: RoomJob, n: int) -> bool {
    forall|m: int|
        0 <= m < n ==> job.packages@.contains_key((#[trigger] job.missing@[m]).0@)
}

/// Whether the first `m` missing games have been written to the cache.
spec fn all_written(actions: Seq<RoomAction>, n: int, job: RoomJob, m: int) -> bool {
    forall|i: int| 0 <= i < m ==> written(actions, n, (#[trigger] job.missing@[i]).0@)
}

/// How far the packages have come in a phase.
spec fn progress(job: RoomJob, actions: Seq<RoomAction>, n: int) -> bool {
    let all = job.listed@.len() as int;
    match job.phase {
        RoomPhase::Ready | RoomPhase::StatusAnnounced | RoomPhase::StatusRequested
        | RoomPhase::ListAnnounced | RoomPhase::ListRequested | RoomPhase::ListReceived => {
            &&& job.packages@ == Map::<Seq<char>, GameData>::empty()
            &&& job.missing@.len() == 0
        },
        RoomPhase::LoadAnnounced(i) | RoomPhase::LoadRequested(i) => looked_for(job, i as int),
        RoomPhase::DownloadAnnounced(j) | RoomPhase::DownloadRequested(j) => {
            &&& looked_for(job, all)
            &&& downloaded(job, j as int)
            &&& all_written(actions, n, job, j as int)
        },
        RoomPhase::StorePending(j) => {
            &&& looked_for(job, all)
            &&& downloaded(job, j + 1)
            &&& all_written(actions, n, job, j as int)
        },
        RoomPhase::Storing(j) => {
            &&& looked_for(job, all)
            &&& downloaded(job, j + 1)
            &&& all_written(actions, n, job, j + 1)
        },
        RoomPhase::TablesAnnounced => {
            &&& looked_for(job, all)
            &&& downloaded(job, job.missing@.len() as int)
            &&& all_written(actions, n, job, job.missing@.len() as int)
        },
        _ => true,
    }
}

/// What holds of the packages after `n` steps.
spec fn sound(
    jobs: Seq<RoomJob>,
    replies: Seq<RoomReply>,
    actions: Seq<RoomAction>,
    n: int,
) -> bool {
    let job = jobs[n];
    &&& job.address == jobs[0].address
    &&& forall|m: int|
        0 <= m < job.missing@.len() ==> lists(
            job.listed@,
            (#[trigger] job.missing@[m]).0@,
            job.missing@[m].1@,
        )
    &&& forall|game: Seq<char>| #[trigger]
        job.packages@.contains_key(game) ==> brought(
            replies,
            actions,
            n,
            job,
            game,
            job.packages@[game],
        )
    &&& progress(job, actions, n)
}

/// What was brought once was brought for good.
proof fn lemma_brought_grows(
    replies: Seq<RoomReply>,
    actions: Seq<RoomAction>,
    n: int,
    job: RoomJob,
    m: int,
    later: RoomJob,
    game: Seq<char>,
    data: GameData,
)
    requires
        n <= m,
        later.listed == job.listed,
        later.address == job.address,
        brought(replies, actions, n, job, game, data),
    ensures
        brought(replies, actions, m, later, game, data),
{
    let i = choose|i: int|
        1 <= i < n && #[trigger] brought_by(replies, actions, i, job, game, data);
    assert(brought_by(replies, actions, i, later, game, data));
}

proof fn lemma_package_address(scheme: Seq<char>, host: Seq<char>, checksum: Seq<char>)
    ensures
        api_address(scheme, host, "datapackage"@, checksum) == scheme + "://"@ + host
            + "/api/datapackage/"@ + checksum,
{
    reveal_strlit("/api/");
    reveal_strlit("datapackage");
    reveal_strlit("/");
    reveal_strlit("/api/datapackage/");
    assert("/api/"@ + "datapackage"@ + "/"@ =~= "/api/datapackage/"@);
    assert(api_address(scheme, host, "datapackage"@, checksum) =~= scheme + "://"@ + host + (
    "/api/"@ + "datapackage"@ + "/"@) + checksum);
}

/// What the cache is asked for is what the list says of the game in question.
proof fn lemma_asked_cache(
    jobs: Seq<RoomJob>,
    replies: Seq<RoomReply>,
    actions: Seq<RoomAction>,
    n: int,
)
    requires
        room_run(jobs, replies, actions),
        jobs[0].phase == RoomPhase::Ready,
        0 <= n < actions.len(),
        jobs[n].phase is LoadRequested,
    ensures
        n >= 1,
        actions[n - 1] is LoadPackage,
        ({
            let entry = jobs[n].listed@[jobs[n].phase->LoadRequested_0 as int];
            &&& actions[n - 1]->LoadPackage_0@ == entry.0@
            &&& actions[n - 1]->LoadPackage_1@ == entry.1.checksum@
        }),
{
    assert(room_step(jobs[n - 1], replies[n - 1], jobs[n], actions[n - 1]));
}

/// What the host is asked for is the package of the missing game in question.
proof fn lemma_asked_host(
    jobs: Seq<RoomJob>,
    replies: Seq<RoomReply>,
    actions: Seq<RoomAction>,
    n: int,
)
    requires
        room_run(jobs, replies, actions),
        jobs[0].phase == RoomPhase::Ready,
        0 <= n < actions.len(),
        jobs[n].phase is DownloadRequested,
    ensures
        n >= 1,
        actions[n - 1] is FetchPackage,
        actions[n - 1]->FetchPackage_0@ == jobs[n].address.scheme@ + "://"@ + jobs[n].address.host@
            + "/api/datapackage/"@ + jobs[n].missing@[jobs[n].phase->DownloadRequested_0 as int].1@,
{
    assert(room_step(jobs[n - 1], replies[n - 1], jobs[n], actions[n - 1]));
    lemma_package_address(
        jobs[n].address.scheme@,
        jobs[n].address.host@,
        jobs[n].missing@[jobs[n].phase->DownloadRequested_0 as int].1@,
    );
}

/// Where the packages, the list and the missing games stay, what holds of them
/// stays.
proof fn lemma_packages_stay(
    jobs: Seq<RoomJob>,
    replies: Seq<RoomReply>,
    actions: Seq<RoomAction>,
    n: int,
)
    requires
        0 <= n,
        sound(jobs, replies, actions, n),
        jobs[n + 1].address == jobs[n].address,
        jobs[n + 1].listed == jobs[n].listed,
        jobs[n + 1].missing@ == jobs[n].missing@,
        jobs[n + 1].packages@ == jobs[n].packages@,
    ensures
        progress(jobs[n + 1], actions, n + 1) ==> sound(jobs, replies, actions, n + 1),
        forall|m: int| #[trigger]
            all_written(actions, n, jobs[n], m) ==> all_written(actions, n + 1, jobs[n + 1], m),
        forall|m: int| #[trigger] downloaded(jobs[n], m) ==> downloaded(jobs[n + 1], m),
        forall|m: int| #[trigger] looked_for(jobs[n], m) ==> looked_for(jobs[n + 1], m),
{
    let pre = jobs[n];
    let post = jobs[n + 1];
    assert forall|game: Seq<char>| #[trigger] post.packages@.contains_key(game) implies brought(
        replies,
        actions,
        n + 1,
        post,
        game,
        post.packages@[game],
    ) by {
        assert(pre.packages@.contains_key(game));
        lemma_brought_grows(replies, actions, n, pre, n + 1, post, game, pre.packages@[game]);
    }
    assert forall|m: int| #[trigger] all_written(actions, n, pre, m) implies all_written(
        actions,
        n + 1,
        post,
        m,
    ) by {
        assert forall|i: int| 0 <= i < m implies written(
            actions,
            n + 1,
            (#[trigger] post.missing@[i]).0@,
        ) by {
            assert(written(actions, n, pre.missing@[i].0@));
        }
    }
    assert forall|m: int| #[trigger] looked_for(pre, m) implies looked_for(post, m) by {
        assert forall|k: int| 0 <= k < m implies post.packages@.contains_key(
            (#[trigger] post.listed@[k]).0@,
        ) || is_missing(post, post.listed@[k].0@) by {
            if !pre.packages@.contains_key(pre.listed@[k].0@) {
                assert(is_missing(pre, pre.listed@[k].0@));
                let m = choose|m: int|
                    0 <= m < pre.missing@.len() && (#[trigger] pre.missing@[m]).0@
                        == pre.listed@[k].0@;
                assert(post.missing@[m] == pre.missing@[m]);
            }
        }
    }
    assert forall|m: int| #[trigger] downloaded(pre, m) implies downloaded(post, m) by {}
    assert forall|m: int| 0 <= m < post.missing@.len() implies lists(
        post.listed@,
        (#[trigger] post.missing@[m]).0@,
        post.missing@[m].1@,
    ) by {
        assert(lists(pre.listed@, pre.missing@[m].0@, pre.missing@[m].1@));
    }
}

/// The answer of the cache.
proof fn lemma_load_step(
    jobs: Seq<RoomJob>,
    replies: Seq<RoomReply>,
    actions: Seq<RoomAction>,
    n: int,
)
    requires
        room_run(jobs, replies, actions),
        jobs[0].phase == RoomPhase::Ready,
        0 <= n < actions.len(),
        sound(jobs, replies, actions, n),
        jobs[n].phase is LoadRequested,
    ensures
        sound(jobs, replies, actions, n + 1),
{
    let pre = jobs[n];
    let post = jobs[n + 1];
    let at = pre.phase->LoadRequested_0 as int;
    let entry = pre.listed@[at];
    assert(room_step(pre, replies[n], post, actions[n]));
    lemma_asked_cache(jobs, replies, actions, n);
    assert(pre.listed.len() <= usize::MAX);
    let found = replies[n]->Loaded_0;
    let good = found is Some && found->Some_0.checksum@ == entry.1.checksum@;
    assert forall|game: Seq<char>| #[trigger] post.packages@.contains_key(game) implies brought(
        replies,
        actions,
        n + 1,
        post,
        game,
        post.packages@[game],
    ) by {
        if good && game == entry.0@ {
            assert(lists(post.listed@, game, entry.1.checksum@));
            assert(brought_by(replies, actions, n, post, game, found->Some_0));
        } else {
            assert(pre.packages@.contains_key(game));
            lemma_brought_grows(replies, actions, n, pre, n + 1, post, game, pre.packages@[game]);
        }
    }
    assert forall|m: int| 0 <= m < post.missing@.len() implies lists(
        post.listed@,
        (#[trigger] post.missing@[m]).0@,
        post.missing@[m].1@,
    ) by {
        if m < pre.missing@.len() {
            if !good {
                assert(post.missing@.drop_last()[m] == post.missing@[m]);
            }
            assert(lists(pre.listed@, pre.missing@[m].0@, pre.missing@[m].1@));
        } else {
            assert(post.listed@[at] == entry);
        }
    }
    assert forall|k: int| 0 <= k < at + 1 implies post.packages@.contains_key(
        (#[trigger] post.listed@[k]).0@,
    ) || is_missing(post, post.listed@[k].0@) by {
        if k < at {
            if !pre.packages@.contains_key(pre.listed@[k].0@) {
                assert(is_missing(pre, pre.listed@[k].0@));
                let m = choose|m: int|
                    0 <= m < pre.missing@.len() && (#[trigger] pre.missing@[m]).0@
                        == pre.listed@[k].0@;
                if !good {
                    assert(post.missing@.drop_last()[m] == post.missing@[m]);
                }
                assert(post.missing@[m].0@ == pre.listed@[k].0@);
            }
        } else if !good {
            assert(post.missing@[post.missing@.len() - 1].0@ == entry.0@);
        }
    }
    assert(looked_for(post, at + 1));
    if at + 1 >= post.listed@.len() {
        assert(looked_for(post, post.listed@.len() as int));
    }
    assert(progress(post, actions, n + 1));
}

/// The answer of the host.
proof fn lemma_download_step(
    jobs: Seq<RoomJob>,
    replies: Seq<RoomReply>,
    actions: Seq<RoomAction>,
    n: int,
)
    requires
        room_run(jobs, replies, actions),
        jobs[0].phase == RoomPhase::Ready,
        0 <= n < actions.len(),
        sound(jobs, replies, actions, n),
        jobs[n].phase is DownloadRequested,
        replies[n] is Package,
        replies[n]->Package_0 is Ok,
    ensures
        sound(jobs, replies, actions, n + 1),
{
    let pre = jobs[n];
    let post = jobs[n + 1];
    let j = pre.phase->DownloadRequested_0 as int;
    let entry = pre.missing@[j];
    let data = replies[n]->Package_0->Ok_0;
    assert(room_step(pre, replies[n], post, actions[n]));
    lemma_asked_host(jobs, replies, actions, n);
    assert(lists(pre.listed@, entry.0@, entry.1@));
    assert forall|game: Seq<char>| #[trigger] post.packages@.contains_key(game) implies brought(
        replies,
        actions,
        n + 1,
        post,
        game,
        post.packages@[game],
    ) by {
        if game == entry.0@ {
            let k = choose|k: int|
                0 <= k < pre.listed@.len() && (#[trigger] pre.listed@[k]).0@ == entry.0@
                    && pre.listed@[k].1.checksum@ == entry.1@;
            assert(post.listed@[k].0@ == game);
            assert(brought_from_host(replies, actions, n, post, game, data));
            assert(brought_by(replies, actions, n, post, game, data));
        } else {
            assert(pre.packages@.contains_key(game));
            lemma_brought_grows(replies, actions, n, pre, n + 1, post, game, pre.packages@[game]);
        }
    }
    assert forall|k: int| 0 <= k < post.listed@.len() implies post.packages@.contains_key(
        (#[trigger] post.listed@[k]).0@,
    ) || is_missing(post, post.listed@[k].0@) by {
        if !pre.packages@.contains_key(pre.listed@[k].0@) {
            assert(is_missing(pre, pre.listed@[k].0@));
            let m = choose|m: int|
                0 <= m < pre.missing@.len() && (#[trigger] pre.missing@[m]).0@
                    == pre.listed@[k].0@;
            assert(post.missing@[m].0@ == pre.listed@[k].0@);
        }
    }
    assert forall|m: int| 0 <= m < j + 1 implies post.packages@.contains_key(
        (#[trigger] post.missing@[m]).0@,
    ) by {
        if m < j {
            assert(pre.packages@.contains_key(pre.missing@[m].0@));
        }
    }
    assert forall|i: int| 0 <= i < j implies written(
        actions,
        n + 1,
        (#[trigger] post.missing@[i]).0@,
    ) by {
        assert(written(actions, n, pre.missing@[i].0@));
    }
}

proof fn lemma_sound(
    jobs: Seq<RoomJob>,
    replies: Seq<RoomReply>,
    actions: Seq<RoomAction>,
    n: int,
)
    requires
        room_run(jobs, replies, actions),
        jobs[0].phase == RoomPhase::Ready,
        jobs[0].packages@ == Map::<Seq<char>, GameData>::empty(),
        jobs[0].missing@.len() == 0,
        0 <= n <= actions.len(),
    ensures
        sound(jobs, replies, actions, n),
    decreases n,
{
    if n > 0 {
        lemma_sound(jobs, replies, actions, n - 1);
        let pre = jobs[n - 1];
        let post = jobs[n];
        let reply = replies[n - 1];
        let action = actions[n - 1];
        assert(room_step(pre, reply, post, action));
        assert(jobs[n - 1 + 1] == post);
        if pre.phase is LoadRequested {
            lemma_load_step(jobs, replies, actions, n - 1);
        } else if pre.phase is DownloadRequested && reply->Package_0 is Ok {
            lemma_download_step(jobs, replies, actions, n - 1);
        } else if pre.phase is TablesAnnounced && reply == RoomReply::Sent(true) {
            assert forall|m: int| 0 <= m < post.missing@.len() implies lists(
                post.listed@,
                (#[trigger] post.missing@[m]).0@,
                post.missing@[m].1@,
            ) by {
                assert(lists(pre.listed@, pre.missing@[m].0@, pre.missing@[m].1@));
            }
        } else if pre.phase is ListRequested && reply->List_0 is Ok {
        } else {
            lemma_packages_stay(jobs, replies, actions, n - 1);
            assert(pre.missing.len() <= usize::MAX);
            match pre.phase {
                RoomPhase::StorePending(j) => {
                    if post.phase is Storing {
                        assert forall|i: int| 0 <= i < j + 1 implies written(
                            actions,
                            n,
                            (#[trigger] post.missing@[i]).0@,
                        ) by {
                            if i < j {
                                assert(written(actions, n - 1, pre.missing@[i].0@));
                            } else {
                                assert(actions[n - 1] is StorePackage);
                            }
                        }
                        assert(downloaded(pre, j + 1));
                        assert(looked_for(pre, pre.listed@.len() as int));
                    }
                },
                RoomPhase::Storing(j) => {
                    assert(all_written(actions, n - 1, pre, j + 1));
                    assert(downloaded(pre, j + 1));
                    assert(looked_for(pre, pre.listed@.len() as int));
                    if post.phase is StorePending {
                        assert forall|m: int| 0 <= m < j + 2 implies post.packages@.contains_key(
                            (#[trigger] post.missing@[m]).0@,
                        ) by {
                            assert(downloaded(post, j + 1));
                        }
                    }
                },
                RoomPhase::ListReceived => {
                    assert(looked_for(pre, 0));
                    assert(looked_for(post, 0));
                },
                RoomPhase::LoadAnnounced(i) => {
                    assert(looked_for(pre, i as int));
                },
                RoomPhase::DownloadAnnounced(j) => {
                    assert(all_written(actions, n - 1, pre, j as int));
                    assert(downloaded(pre, j as int));
                    assert(looked_for(pre, pre.listed@.len() as int));
                },
                _ => {},
            }
            assert(progress(post, actions, n));
        }
    }
}

/// A job that has not begun has nothing at hand.
pub open spec fn begins(job: RoomJob) -> bool {
    &&& job.phase == RoomPhase::Ready
    &&& job.packages@ == Map::<Seq<char>, GameData>::empty()
    &&& job.missing@.len() == 0
}

/// Whatever package is at hand for a game was found in the cache under the
/// checksum that the room's list gives for that game, or was fetched from the
/// address of that checksum.
pub proof fn law_packages_are_those_of_the_list(
    jobs: Seq<RoomJob>,
    replies: Seq<RoomReply>,
    actions: Seq<RoomAction>,
    n: int,
    game: Seq<char>,
)
    requires
        room_run(jobs, replies, actions),
        begins(jobs[0]),
        0 <= n <= actions.len(),
        jobs[n].packages@.contains_key(game),
    ensures
        brought(replies, actions, n, jobs[n], game, jobs[n].packages@[game]),
{
    lemma_sound(jobs, replies, actions, n);
}

/// A package is fetched from the address of the checksum that the list gives for
/// the game that it is then put under.
pub proof fn law_package_fetched_for_its_game(
    jobs: Seq<RoomJob>,
    replies: Seq<RoomReply>,
    actions: Seq<RoomAction>,
    n: int,
    data: GameData,
)
    requires
        room_run(jobs, replies, actions),
        begins(jobs[0]),
        0 <= n < actions.len(),
        replies[n] == RoomReply::Package(Ok(data)),
    ensures
        n >= 1,
        actions[n - 1] is FetchPackage,
        exists|k: int|
            0 <= k < jobs[n].listed@.len() && jobs[n + 1].packages@ == jobs[n].packages@.insert(
                (#[trigger] jobs[n].listed@[k]).0@,
                data,
            ) && actions[n - 1]->FetchPackage_0@ == jobs[n].address.scheme@ + "://"@
                + jobs[n].address.host@ + "/api/datapackage/"@ + jobs[n].listed@[k].1.checksum@
                && is_missing(jobs[n], jobs[n].listed@[k].0@),
{
    assert(room_step(jobs[n], replies[n], jobs[n + 1], actions[n]));
    lemma_sound(jobs, replies, actions, n);
    lemma_asked_host(jobs, replies, actions, n);
    let j = jobs[n].phase->DownloadRequested_0 as int;
    let entry = jobs[n].missing@[j];
    assert(lists(jobs[n].listed@, entry.0@, entry.1@));
    let k = choose|k: int|
        0 <= k < jobs[n].listed@.len() && (#[trigger] jobs[n].listed@[k]).0@ == entry.0@
            && jobs[n].listed@[k].1.checksum@ == entry.1@;
    assert(jobs[n].missing@[j].0@ == jobs[n].listed@[k].0@);
}

/// When the lookup tables are built, there is a package for every game of the
/// list, and every one that was not in the cache has been written to it.
pub proof fn law_all_packages_at_hand(
    jobs: Seq<RoomJob>,
    replies: Seq<RoomReply>,
    actions: Seq<RoomAction>,
    n: int,
    k: int,
)
    requires
        room_run(jobs, replies, actions),
        begins(jobs[0]),
        0 <= n <= actions.len(),
        jobs[n].phase == RoomPhase::TablesAnnounced,
        0 <= k < jobs[n].listed@.len(),
    ensures
        jobs[n].packages@.contains_key(jobs[n].listed@[k].0@),
        is_missing(jobs[n], jobs[n].listed@[k].0@) ==> written(
            actions,
            n,
            jobs[n].listed@[k].0@,
        ),
{
    lemma_sound(jobs, replies, actions, n);
    let job = jobs[n];
    let game = job.listed@[k].0@;
    assert(job.packages@.contains_key(game) || is_missing(job, game));
    if is_missing(job, game) {
        let m = choose|m: int| 0 <= m < job.missing@.len() && (#[trigger] job.missing@[m]).0@ == game;
        assert(job.packages@.contains_key(job.missing@[m].0@));
        assert(written(actions, n, job.missing@[m].0@));
    }
}

/// Whether a job knows what the host has said of the room: where the tracker and
/// the game server are, and who plays. Once items are resolved, the server stands
/// before the players.
pub open spec fn knows_room(job: RoomJob, status: RoomStatus) -> bool {
    &&& job.tracker_id@ == status.tracker@
    &&& job.last_port == status.last_port
    &&& if job.phase is Reported || job.phase is DoneAnnounced {
        &&& job.players@.len() == status.players@.len() + 1
        &&& job.players@[0].0@ == "Server"@
        &&& job.players@[0].1@ == "Archipelago"@
        &&& forall|i: int|
            0 <= i < status.players@.len() ==> job.players@[i + 1] == #[trigger] status.players@[i]
    } else {
        job.players@ == status.players@
    }
}

/// Whether one of the first `n` replies says what the job knows of the room.
pub open spec fn told_room(replies: Seq<RoomReply>, n: int, job: RoomJob) -> bool {
    exists|i: int|
        0 <= i < n && (#[trigger] replies[i]) is Status && replies[i]->Status_0 is Ok && knows_room(
            job,
            replies[i]->Status_0->Ok_0,
        )
}

/// Whether one of the first `n` replies gives the job's list of packages.
pub open spec fn told_list(replies: Seq<RoomReply>, n: int, job: RoomJob) -> bool {
    exists|i: int|
        0 <= i < n && (#[trigger] replies[i]) is List && replies[i]->List_0 is Ok && job.listed@
            == replies[i]->List_0->Ok_0.datapackage@
}

/// Whether one of the first `n` replies gives what the players have received.
pub open spec fn told_items(replies: Seq<RoomReply>, n: int, job: RoomJob) -> bool {
    exists|i: int|
        0 <= i < n && (#[trigger] replies[i]) is Tracker && replies[i]->Tracker_0 is Ok
            && job.entries@ == replies[i]->Tracker_0->Ok_0.player_items_received@
}

/// Whether the host has said how the room is.
spec fn after_status(phase: RoomPhase) -> bool {
    match phase {
        RoomPhase::Ready | RoomPhase::StatusAnnounced | RoomPhase::StatusRequested
        | RoomPhase::Ended => false,
        _ => true,
    }
}

/// Whether the host has said which packages there are.
spec fn after_list(phase: RoomPhase) -> bool {
    after_status(phase) && !(phase is ListAnnounced) && !(phase is ListRequested)
}

/// Whether the host has said what the players have received.
spec fn after_items(phase: RoomPhase) -> bool {
    phase is ResolveAnnounced || phase is Reported || phase is DoneAnnounced
}

proof fn lemma_told(
    jobs: Seq<RoomJob>,
    replies: Seq<RoomReply>,
    actions: Seq<RoomAction>,
    n: int,
)
    requires
        room_run(jobs, replies, actions),
        jobs[0].phase == RoomPhase::Ready,
        0 <= n <= actions.len(),
    ensures
        jobs[n].address == jobs[0].address,
        after_status(jobs[n].phase) ==> told_room(replies, n, jobs[n]),
        after_list(jobs[n].phase) ==> told_list(replies, n, jobs[n]),
        after_items(jobs[n].phase) ==> told_items(replies, n, jobs[n]),
    decreases n,
{
    if n > 0 {
        lemma_told(jobs, replies, actions, n - 1);
        let pre = jobs[n - 1];
        let post = jobs[n];
        let reply = replies[n - 1];
        assert(room_step(pre, reply, post, actions[n - 1]));
        if after_status(post.phase) {
            if pre.phase is StatusRequested {
                assert(knows_room(post, replies[n - 1]->Status_0->Ok_0));
            } else {
                let i = choose|i: int|
                    0 <= i < n - 1 && (#[trigger] replies[i]) is Status && replies[i]->Status_0
                        is Ok && knows_room(pre, replies[i]->Status_0->Ok_0);
                let status = replies[i]->Status_0->Ok_0;
                if pre.phase is ResolveAnnounced {
                    assert forall|i: int| 0 <= i < status.players@.len() implies post.players@[i
                        + 1] == #[trigger] status.players@[i] by {
                        assert(post.players@.skip(1)[i] == post.players@[i + 1]);
                    }
                }
                assert(knows_room(post, status));
            }
        }
        if after_list(post.phase) {
            if pre.phase is ListRequested {
                assert(post.listed@ == replies[n - 1]->List_0->Ok_0.datapackage@);
            } else {
                assert(told_list(replies, n - 1, pre));
                assert(post.listed@ == pre.listed@);
            }
        }
        if after_items(post.phase) {
            if pre.phase is TrackerRequested {
                assert(post.entries@ == replies[n - 1]->Tracker_0->Ok_0.player_items_received@);
            } else {
                assert(told_items(replies, n - 1, pre));
                assert(post.entries@ == pre.entries@);
            }
        }
    }
}

proof fn lemma_addresses(scheme: Seq<char>, host: Seq<char>, id: Seq<char>)
    ensures
        api_address(scheme, host, "room_status"@, id) == scheme + "://"@ + host
            + "/api/room_status/"@ + id,
        api_address(scheme, host, "static_tracker"@, id) == scheme + "://"@ + host
            + "/api/static_tracker/"@ + id,
        api_address(scheme, host, "tracker"@, id) == scheme + "://"@ + host + "/api/tracker/"@ + id,
{
    reveal_strlit("/api/");
    reveal_strlit("/");
    reveal_strlit("room_status");
    reveal_strlit("static_tracker");
    reveal_strlit("tracker");
    reveal_strlit("/api/room_status/");
    reveal_strlit("/api/static_tracker/");
    reveal_strlit("/api/tracker/");
    assert("/api/"@ + "room_status"@ + "/"@ =~= "/api/room_status/"@);
    assert("/api/"@ + "static_tracker"@ + "/"@ =~= "/api/static_tracker/"@);
    assert("/api/"@ + "tracker"@ + "/"@ =~= "/api/tracker/"@);
    let front = scheme + "://"@ + host;
    assert(api_address(scheme, host, "room_status"@, id) =~= front + ("/api/"@ + "room_status"@
        + "/"@) + id);
    assert(api_address(scheme, host, "static_tracker"@, id) =~= front + ("/api/"@
        + "static_tracker"@ + "/"@) + id);
    assert(api_address(scheme, host, "tracker"@, id) =~= front + ("/api/"@ + "tracker"@ + "/"@)
        + id);
}

/// Whether one of the first `n` replies names a tracker with which `front` is
/// completed to `url`.
pub open spec fn asks_tracker(
    replies: Seq<RoomReply>,
    n: int,
    front: Seq<char>,
    url: Seq<char>,
) -> bool {
    exists|i: int|
        0 <= i < n && (#[trigger] replies[i]) is Status && replies[i]->Status_0 is Ok && url == front
            + replies[i]->Status_0->Ok_0.tracker@
}

/// What is fetched: the state of the room by the room's id, and the list of
/// packages and the received items by the id of the tracker that the state of the
/// room has named.
pub proof fn law_what_is_fetched(
    jobs: Seq<RoomJob>,
    replies: Seq<RoomReply>,
    actions: Seq<RoomAction>,
    n: int,
)
    requires
        room_run(jobs, replies, actions),
        jobs[0].phase == RoomPhase::Ready,
        0 <= n < actions.len(),
    ensures
        ({
            let host = jobs[0].address.scheme@ + "://"@ + jobs[0].address.host@;
            match actions[n] {
                RoomAction::FetchStatus(url) => url@ == host + "/api/room_status/"@
                    + jobs[0].address.room_id@,
                RoomAction::FetchList(url) => asks_tracker(
                    replies,
                    n,
                    host + "/api/static_tracker/"@,
                    url@,
                ),
                RoomAction::FetchTracker(url) => asks_tracker(
                    replies,
                    n,
                    host + "/api/tracker/"@,
                    url@,
                ),
                _ => true,
            }
        }),
{
    lemma_told(jobs, replies, actions, n);
    let job = jobs[n];
    assert(room_step(job, replies[n], jobs[n + 1], actions[n]));
    lemma_addresses(job.address.scheme@, job.address.host@, job.address.room_id@);
    lemma_addresses(job.address.scheme@, job.address.host@, job.tracker_id@);
    if actions[n] is FetchList || actions[n] is FetchTracker {
        let i = choose|i: int|
            0 <= i < n && (#[trigger] replies[i]) is Status && replies[i]->Status_0 is Ok
                && knows_room(job, replies[i]->Status_0->Ok_0);
        assert(replies[i]->Status_0->Ok_0.tracker@ == job.tracker_id@);
    }
}

/// Whether one of the first `n` replies names a port with which the address of
/// game clients is `text`: under the plain scheme of web sockets, or under the
/// secure one where the port would go without saying under the plain one.
pub open spec fn leads_to_port(
    replies: Seq<RoomReply>,
    n: int,
    url: Seq<char>,
    text: Seq<char>,
) -> bool {
    exists|i: int|
        0 <= i < n && (#[trigger] replies[i]) is Status && replies[i]->Status_0 is Ok && text
            == authority_with(
            url,
            if replies[i]->Status_0->Ok_0.last_port == 80 {
                "wss"@
            } else {
                "ws"@
            },
            replies[i]->Status_0->Ok_0.last_port,
        )
}

/// The end names the address of game clients: that of the room with the port that
/// the host has named.
pub proof fn law_end_names_the_port(
    jobs: Seq<RoomJob>,
    replies: Seq<RoomReply>,
    actions: Seq<RoomAction>,
    n: int,
    address: Option<String>,
)
    requires
        room_run(jobs, replies, actions),
        jobs[0].phase == RoomPhase::Ready,
        0 <= n < actions.len(),
        actions[n] == RoomAction::Emit(ConnEvent::Done(address)),
    ensures
        address is Some,
        leads_to_port(replies, n, jobs[0].address.url@, address->Some_0@),
{
    lemma_told(jobs, replies, actions, n);
    let job = jobs[n];
    assert(room_step(job, replies[n], jobs[n + 1], actions[n]));
    let i = choose|i: int|
        0 <= i < n && (#[trigger] replies[i]) is Status && replies[i]->Status_0 is Ok && knows_room(
            job,
            replies[i]->Status_0->Ok_0,
        );
    assert(replies[i]->Status_0->Ok_0.last_port == job.last_port);
}

/// When a slot is reported, the job works with the host's own answers: the
/// players of the room behind the server, and the received items of the tracker.
pub proof fn law_reports_rest_on_the_hosts_answers(
    jobs: Seq<RoomJob>,
    replies: Seq<RoomReply>,
    actions: Seq<RoomAction>,
    n: int,
)
    requires
        room_run(jobs, replies, actions),
        jobs[0].phase == RoomPhase::Ready,
        0 <= n < actions.len(),
        actions[n] is Emit,
        actions[n]->Emit_0 is SlotData,
    ensures
        jobs[n + 1].phase is Reported,
        told_room(replies, n + 1, jobs[n + 1]),
        told_list(replies, n + 1, jobs[n + 1]),
        told_items(replies, n + 1, jobs[n + 1]),
{
    lemma_told(jobs, replies, actions, n + 1);
    assert(room_step(jobs[n], replies[n], jobs[n + 1], actions[n]));
}

} // verus!
