//! What the texts and the lists of the answers have to do with what they tell of.

use vstd::prelude::*;

use crate::server::actions::EntryModel;
use crate::server::routes::{
    all_stages, exchanged, go_status, line_end, line_text, lines_from, page, rows_text,
    shows_action, span_text, start_of, ActionResponse, LiveConfig, Refusal, ReloadStage,
    ReloadingModel,
};
use crate::server::state::StateModel;
use crate::text::{decimal, join, trim};
use crate::time::rfc3339_text;

verus! {

/// A page starts at its offset, or at the start, and goes on item by item up to its limit, or
/// to the end; an offset beyond the end gives an empty page.
pub proof fn law_pages_hold_the_items_from_their_offset<T>(
    items: Seq<T>,
    offset: Option<usize>,
    limit: Option<usize>,
)
    ensures
        ({
            let p = page(items, offset, limit);
            let from: int = match offset {
                Some(o) => o as int,
                None => 0,
            };
            &&& from >= items.len() ==> p.len() == 0
            &&& from < items.len() && limit is None ==> p.len() == items.len() - from
            &&& from < items.len() && limit is Some && limit->0 <= items.len() - from ==> p.len()
                == limit->0
            &&& from < items.len() && limit is Some && limit->0 > items.len() - from ==> p.len()
                == items.len() - from
            &&& forall|i: int| 0 <= i < p.len() ==> #[trigger] p[i] == items[from + i]
        }),
{
}

/// A span of so many hours, minutes and seconds is told in hours and minutes, as far as it
/// has any, and else in seconds.
pub proof fn law_spans_are_told_in_their_units(hours: nat, minutes: nat, seconds: nat)
    requires
        minutes < 60,
        seconds < 60,
    ensures
        ({
            let text = span_text(hours * 3600 + minutes * 60 + seconds);
            &&& hours > 0 && minutes > 0 ==> text == decimal(hours) + "h"@ + decimal(minutes)
                + "m"@
            &&& hours > 0 && minutes == 0 ==> text == decimal(hours) + "h"@
            &&& hours == 0 && minutes > 0 ==> text == decimal(minutes) + "m"@
            &&& hours == 0 && minutes == 0 ==> text == decimal(seconds) + "s"@
        }),
{
    let total = hours * 3600 + minutes * 60 + seconds;
    assert(total / 3600 == hours && total % 3600 == minutes * 60 + seconds) by (nonlinear_arith)
        requires
            total == hours * 3600 + minutes * 60 + seconds,
            minutes < 60,
            seconds < 60,
            0 <= hours,
            0 <= minutes,
            0 <= seconds,
    ;
    assert((minutes * 60 + seconds) / 60 == minutes);
    assert(total % 60 == seconds) by {
        assert(total == (hours * 60 + minutes) * 60 + seconds);
        assert(total % 60 == seconds) by (nonlinear_arith)
            requires
                total == (hours * 60 + minutes) * 60 + seconds,
                0 <= seconds < 60,
        ;
    }
}

/// The other dialect tells the four ways that an action can stand apart.
pub proof fn law_statuses_of_the_other_dialect()
    ensures
        go_status("running"@) == "in progress"@,
        go_status("completed"@) == "success"@,
        go_status("failed"@) == "error"@,
        go_status("killed"@) == "cancel"@,
{
    reveal_strlit("running");
    reveal_strlit("completed");
    reveal_strlit("failed");
    reveal_strlit("killed");
    assert("running"@.len() == 7 && "completed"@.len() == 9 && "failed"@.len() == 6
        && "killed"@.len() == 6);
    assert("failed"@[0] != "killed"@[0]);
}

/// An action is shown with its identifier, its command, when it started and ended, how it
/// stands, and the error just where it failed.
pub proof fn law_actions_are_shown_as_logged(a: ActionResponse, e: EntryModel)
    requires
        shows_action(a, e),
    ensures
        a.id == e.id,
        a.command@ == e.command,
        a.start@ == rfc3339_text(e.start.unix_secs(), e.start.unix_nanos()),
        e.finish is Some ==> a.finish@ == rfc3339_text(
            e.finish->0.unix_secs(),
            e.finish->0.unix_nanos(),
        ),
        e.finish is None ==> a.finish@.len() == 0,
        e.status is Running ==> a.status@ == "running"@ && a.error@.len() == 0,
        e.status is Completed ==> a.status@ == "completed"@ && a.error@.len() == 0,
        e.status is Killed ==> a.status@ == "killed"@ && a.error@.len() == 0,
        e.status is Failed ==> a.status@ == "failed"@ && a.error@ == e.status->Failed_0,
{
}

/// The start of an action is that of the first entry of the log with its identifier.
pub proof fn law_start_is_that_of_the_action(entries: Seq<EntryModel>, id: u64, k: int)
    requires
        0 <= k < entries.len(),
        entries[k].id == id,
        forall|j: int| 0 <= j < k ==> (#[trigger] entries[j]).id != id,
    ensures
        start_of(entries, id) == Some(
            rfc3339_text(entries[k].start.unix_secs(), entries[k].start.unix_nanos()),
        ),
    decreases k,
{
    if k > 0 {
        let rest = entries.skip(1);
        assert(entries[0].id != id);
        assert forall|j: int| 0 <= j < k - 1 implies (#[trigger] rest[j]).id != id by {
            assert(rest[j] == entries[j + 1]);
        }
        assert(rest[k - 1] == entries[k]);
        law_start_is_that_of_the_action(rest, id, k - 1);
    }
}

/// Each row stands on a line of its own, which ends with a line feed; without rows there is
/// no text.
pub proof fn law_each_row_has_a_line(rows: Seq<Seq<char>>, row: Seq<char>)
    requires
        row.len() > 0,
        rows.len() > 0 ==> rows[0].len() > 0,
    ensures
        rows_text(rows.push(row)) == rows_text(rows) + row + "\n"@,
        rows_text(Seq::empty()).len() == 0,
{
    reveal_strlit("\n");
    let all = rows.push(row);
    assert(all.drop_last() =~= rows);
    if rows.len() == 0 {
        assert(all.len() == 1);
        assert(join(all, "\n"@) =~= row);
        assert(join(rows, "\n"@) =~= Seq::<char>::empty());
        assert(rows_text(rows) + row + "\n"@ =~= row + "\n"@);
    } else {
        lemma_join_push(rows, row);
        lemma_join_len(rows);
        let body = join(rows, "\n"@);
        assert(body + "\n"@ + row + "\n"@ =~= rows_text(rows) + row + "\n"@);
        assert(join(all, "\n"@).len() > 0);
    }
}

proof fn lemma_join_push(rows: Seq<Seq<char>>, row: Seq<char>)
    requires
        rows.len() > 0,
    ensures
        join(rows.push(row), "\n"@) == join(rows, "\n"@) + "\n"@ + row,
    decreases rows.len(),
{
    let all = rows.push(row);
    assert(all.drop_last() =~= rows);
    assert(all.last() == row);
}

proof fn lemma_join_len(rows: Seq<Seq<char>>)
    requires
        rows.len() > 0,
        rows[0].len() > 0,
    ensures
        join(rows, "\n"@).len() > 0,
    decreases rows.len(),
{
    if rows.len() > 1 {
        assert(rows.drop_last()[0] == rows[0]);
        lemma_join_len(rows.drop_last());
    }
}

proof fn lemma_line_end_at(body: Seq<u8>, from: nat, to: nat)
    requires
        from <= to <= body.len(),
        forall|i: int| from <= i < to ==> body[i] != 10,
        to < body.len() ==> body[to as int] == 10,
    ensures
        line_end(body, from) == to,
    decreases to - from,
{
    if from < to {
        lemma_line_end_at(body, from + 1, to);
    }
}

proof fn lemma_line_end_is(body: Seq<u8>, from: nat) -> (to: nat)
    requires
        from <= body.len(),
    ensures
        from <= to <= body.len(),
        to == line_end(body, from),
        forall|i: int| from <= i < to ==> body[i] != 10,
        to < body.len() ==> body[to as int] == 10,
    decreases body.len() - from,
{
    if from >= body.len() || body[from as int] == 10 {
        from
    } else {
        lemma_line_end_is(body, from + 1)
    }
}

proof fn lemma_lines_shift(front: Seq<u8>, body: Seq<u8>, from: nat)
    ensures
        lines_from(front + body, front.len() + from) == lines_from(body, from),
    decreases body.len() + 1 - from,
{
    let whole = front + body;
    let n = front.len();
    if from <= body.len() {
        let to = lemma_line_end_is(body, from);
        assert forall|i: int| n + from <= i < n + to implies whole[i] != 10 by {
            assert(whole[i] == body[i - n]);
        }
        if to < body.len() {
            assert(whole[(n + to) as int] == body[to as int]);
        }
        lemma_line_end_at(whole, n + from, n + to);
        assert(whole.subrange((n + from) as int, (n + to) as int) =~= body.subrange(
            from as int,
            to as int,
        ));
        lemma_lines_shift(front, body, to + 1);
    }
}

/// The lines of a body are parted by line feeds: what stands before the first one is the
/// first line, and the lines of what follows are the others. A line that is blank, or no
/// text, is left out.
pub proof fn law_line_feeds_part_the_lines(line: Seq<u8>, rest: Seq<u8>)
    requires
        !line.contains(10u8),
    ensures
        ({
            let text = line_text(line);
            let others = lines_from(rest, 0);
            let all = lines_from(line + seq![10u8] + rest, 0);
            &&& text.len() > 0 ==> all == seq![text] + others
            &&& text.len() == 0 ==> all == others
            &&& text.len() > 0 ==> lines_from(line, 0) == seq![text]
            &&& text.len() == 0 ==> lines_from(line, 0) == Seq::<Seq<char>>::empty()
        }),
{
    let whole = line + seq![10u8] + rest;
    let n = line.len();
    assert forall|i: int| 0 <= i < n implies whole[i] != 10 && line[i] != 10 by {
        assert(whole[i] == line[i]);
        assert(line.contains(line[i]));
    }
    lemma_line_end_at(whole, 0, n);
    lemma_line_end_at(line, 0, n);
    assert(whole.subrange(0, n as int) =~= line);
    assert(line.subrange(0, n as int) =~= line);
    lemma_lines_shift(line + seq![10u8], rest, 0);
    assert(lines_from(line, n + 1) =~= Seq::<Seq<char>>::empty());
    assert(lines_from(line, 0) =~= if line_text(line).len() > 0 {
        seq![line_text(line)]
    } else {
        Seq::<Seq<char>>::empty()
    });
}

/// A configuration is loaded, checked, and then tried with new clients for ClickHouse and for
/// the storage, in that order; a restart also reaches for ClickHouse at the end.
pub proof fn law_stages_of_loading()
    ensures
        all_stages(false) == seq![
            ReloadStage::Load,
            ReloadStage::Validate,
            ReloadStage::ClickHouse,
            ReloadStage::S3,
        ],
        all_stages(true) == seq![
            ReloadStage::Load,
            ReloadStage::Validate,
            ReloadStage::ClickHouse,
            ReloadStage::S3,
            ReloadStage::Ping,
        ],
{
    assert(all_stages(false) =~= seq![
        ReloadStage::Load,
        ReloadStage::Validate,
        ReloadStage::ClickHouse,
        ReloadStage::S3,
    ]);
    assert(all_stages(true) =~= seq![
        ReloadStage::Load,
        ReloadStage::Validate,
        ReloadStage::ClickHouse,
        ReloadStage::S3,
        ReloadStage::Ping,
    ]);
}

/// A configuration that was loaded is taken into use with all that comes from it, and the
/// watch loop is told just where it is active. One that failed changes nothing, and is
/// answered with the status 500.
pub proof fn law_loaded_configuration_is_taken_into_use(
    loading: ReloadingModel,
    m: StateModel,
    after: StateModel,
    live: LiveConfig,
    live_after: LiveConfig,
    loaded: LiveConfig,
    watch_active: bool,
    r: Result<bool, Refusal>,
)
    requires
        exchanged(loading, m, after, live, live_after, loaded, watch_active, r),
    ensures
        r is Ok <==> loading.failed is None,
        r matches Ok(told) ==> told == watch_active,
        r is Ok ==> live_after.config == loaded.config && live_after.clickhouse
            == loaded.clickhouse && live_after.s3 == loaded.s3 && live_after.allow_parallel
            == loaded.allow_parallel && live_after.remote_cache_ttl_secs
            == loaded.remote_cache_ttl_secs,
        r is Ok ==> after.running == m.running && after.log == m.log,
        r is Ok && loaded.allow_parallel == live.allow_parallel ==> after == m,
        r is Ok && live.allow_parallel && !loaded.allow_parallel ==> after.permits == 1
            && after.permit_set == (m.permit_set + 1) as u64,
        r is Ok && !live.allow_parallel && loaded.allow_parallel ==> after.permits == usize::MAX / 8,
        r is Err ==> after == m && live_after == live && (r->Err_0).0 == 500,
        r is Err && (loading.failed->0).0 is Validate ==> r->Err_0.1.error@
            == "config validation error: "@ + (loading.failed->0).1,
        r is Err && (loading.failed->0).0 is Load ==> r->Err_0.1.error@ == "config load error: "@
            + (loading.failed->0).1,
        r is Err && (loading.failed->0).0 is Ping ==> r->Err_0.1.error@ == "ClickHouse ping failed: "@
            + (loading.failed->0).1,
{
}

/// A line of a text is the text without the blanks around it, and a line that is no text
/// tells nothing.
pub proof fn law_lines_are_texts_without_blanks(text: Seq<char>, line: Seq<u8>)
    ensures
        line_text(vstd::utf8::encode_utf8(text)) == trim(text),
        !vstd::utf8::valid_utf8(line) ==> line_text(line).len() == 0,
{
    vstd::utf8::encode_utf8_valid_utf8(text);
    vstd::utf8::encode_utf8_decode_utf8(text);
}

} // verus!
