use vstd::prelude::*;

use crate::text::{chars_of, starts_with, string_of_range};

verus! {

/// A finished line: the line ending `\n` is gone, and a `\r` just before it
/// goes with it.
pub open spec fn line_without_cr(line: Seq<char>) -> Seq<char> {
    if line.len() > 0 && line.last() == '\r' {
        line.drop_last()
    } else {
        line
    }
}

/// Reading `s` character by character: the lines finished so far and the
/// characters of the line not yet finished.
pub open spec fn scan_lines(s: Seq<char>) -> (Seq<Seq<char>>, Seq<char>)
    decreases s.len(),
{
    if s.len() == 0 {
        (Seq::empty(), Seq::empty())
    } else {
        let (done, open) = scan_lines(s.drop_last());
        if s.last() == '\n' {
            (done.push(line_without_cr(open)), Seq::empty())
        } else {
            (done, open.push(s.last()))
        }
    }
}

/// The lines of `s`, as `str::lines` gives them: split after each `\n`, with
/// the `\n` (and a `\r` just before it) removed; a last line without `\n` is a
/// line when it is not empty.
pub open spec fn lines(s: Seq<char>) -> Seq<Seq<char>> {
    let (done, open) = scan_lines(s);
    if open.len() == 0 {
        done
    } else {
        done.push(open)
    }
}

/// The prefix of a data line of a server-sent event stream.
pub open spec fn data_prefix() -> Seq<char> {
    "data: "@
}

/// The payload that marks the end of the stream.
pub open spec fn done_marker() -> Seq<char> {
    "[DONE]"@
}

/// Whether `line` is a data line that carries a payload other than the
/// end-of-stream marker.
pub open spec fn carries_payload(line: Seq<char>) -> bool {
    starts_with(line, data_prefix()) && line.skip(data_prefix().len() as int) != done_marker()
}

/// `payloads`, followed by the payload of `line` when it carries one.
pub open spec fn with_payload(payloads: Seq<Seq<char>>, line: Seq<char>) -> Seq<Seq<char>> {
    if carries_payload(line) {
        payloads.push(line.skip(data_prefix().len() as int))
    } else {
        payloads
    }
}

/// The payloads of the data lines among `lines`, in order, leaving out the
/// end-of-stream marker.
pub open spec fn data_payloads(lines: Seq<Seq<char>>) -> Seq<Seq<char>>
    decreases lines.len(),
{
    if lines.len() == 0 {
        Seq::empty()
    } else {
        with_payload(data_payloads(lines.drop_last()), lines.last())
    }
}

/// The views of a sequence of strings.
pub open spec fn string_views(strings: Seq<String>) -> Seq<Seq<char>> {
    strings.map_values(|s: String| s@)
}

/// Adds the payload of `chars[from..to]` to `payloads` when that line carries one.
fn take_payload(payloads: &mut Vec<String>, chars: &Vec<char>, from: usize, to: usize)
    requires
        from <= to <= chars@.len(),
    ensures
        string_views(final(payloads)@) == with_payload(
            string_views(old(payloads)@),
            chars@.subrange(from as int, to as int),
        ),
{
    let ghost line = chars@.subrange(from as int, to as int);
    let ghost before = string_views(payloads@);
    let line_chars = crate::text::sub_chars(chars, from, to);
    let prefix = chars_of("data: ");
    if crate::text::has_prefix(&line_chars, &prefix) {
        let n = prefix.len();
        let payload = string_of_range(&line_chars, n, line_chars.len());
        assert(payload@ =~= line.skip(n as int));
        if !crate::text::same_text(payload.as_str(), "[DONE]") {
            payloads.push(payload);
            assert(string_views(payloads@) =~= before.push(line.skip(n as int)));
        }
    }
}

/// The end of the line that ends just before index `end` of `chars`: `end`,
/// or `end - 1` when a `\r` stands there.
fn end_without_cr(chars: &Vec<char>, from: usize, end: usize) -> (e: usize)
    requires
        from <= end <= chars@.len(),
    ensures
        from <= e <= end,
        chars@.subrange(from as int, e as int) == line_without_cr(
            chars@.subrange(from as int, end as int),
        ),
{
    if end > from && chars[end - 1] == '\r' {
        assert(chars@.subrange(from as int, end - 1) =~= chars@.subrange(
            from as int,
            end as int,
        ).drop_last());
        end - 1
    } else {
        end
    }
}

/// The payloads of the data lines of a server-sent event stream, in order:
/// each line that starts with `data: `, without that prefix, leaving out the
/// `[DONE]` marker.
pub fn sse_data_payloads(text: &str) -> (payloads: Vec<String>)
    ensures
        string_views(payloads@) == data_payloads(lines(text@)),
{
    let chars = chars_of(text);
    let mut payloads: Vec<String> = Vec::new();
    let mut line_start: usize = 0;
    let mut i: usize = 0;
    let ghost mut done: Seq<Seq<char>> = Seq::empty();
    assert(chars@.take(0) =~= Seq::<char>::empty());
    while i < chars.len()
        invariant
            chars@ == text@,
            line_start <= i <= chars@.len(),
            scan_lines(chars@.take(i as int)) == (done, chars@.subrange(
                line_start as int,
                i as int,
            )),
            string_views(payloads@) == data_payloads(done),
        decreases chars@.len() - i,
    {
        let ghost open = chars@.subrange(line_start as int, i as int);
        assert(chars@.take(i + 1).drop_last() =~= chars@.take(i as int));
        assert(chars@.take(i + 1).last() == chars@[i as int]);
        if chars[i] == '\n' {
            let e = end_without_cr(&chars, line_start, i);
            take_payload(&mut payloads, &chars, line_start, e);
            proof {
                let next = done.push(line_without_cr(open));
                assert(next.drop_last() =~= done);
                done = next;
            }
            line_start = i + 1;
            assert(chars@.subrange(line_start as int, i + 1) =~= Seq::<char>::empty());
        } else {
            assert(chars@.subrange(line_start as int, i + 1) =~= open.push(chars@[i as int]));
        }
        i = i + 1;
    }
    assert(chars@.take(i as int) =~= chars@);
    if line_start < chars.len() {
        take_payload(&mut payloads, &chars, line_start, chars.len());
        let ghost all = done.push(chars@.subrange(line_start as int, chars@.len() as int));
        assert(all.drop_last() =~= done);
    }
    payloads
}

/// Whether `payload` is what one of `lines` carries.
pub open spec fn carried_by_some(lines: Seq<Seq<char>>, payload: Seq<char>) -> bool {
    exists|l: int|
        0 <= l < lines.len() && carries_payload(#[trigger] lines[l]) && lines[l].skip(
            data_prefix().len() as int,
        ) == payload
}

/// No payload is the end-of-stream marker, and every payload is what some
/// data line carries.
pub proof fn lemma_payloads_are_data(lines: Seq<Seq<char>>)
    ensures
        forall|k: int| 0 <= k < data_payloads(lines).len() ==> #[trigger] data_payloads(lines)[k] != done_marker(),
        forall|k: int| 0 <= k < data_payloads(lines).len() ==> carried_by_some(lines, #[trigger] data_payloads(lines)[k]),
        data_payloads(lines).len() <= lines.len(),
    decreases lines.len(),
{
    if lines.len() > 0 {
        let prev = lines.drop_last();
        lemma_payloads_are_data(prev);
        assert forall|k: int| 0 <= k < data_payloads(lines).len() implies carried_by_some(lines, #[trigger] data_payloads(lines)[k]) by {
            if k < data_payloads(prev).len() {
                let l = choose|l: int|
                    0 <= l < prev.len() && carries_payload(#[trigger] prev[l]) && prev[l].skip(
                        data_prefix().len() as int,
                    ) == data_payloads(prev)[k];
                assert(lines[l] == prev[l]);
            } else {
                assert(lines[lines.len() - 1] == lines.last());
            }
        }
    }
}

/// Reading past a line ending: the text before it contributes its finished
/// lines and its open line, closed; the text after it is read as if on its own.
proof fn lemma_scan_after_newline(p: Seq<char>, q: Seq<char>)
    ensures
        scan_lines(p + seq!['\n'] + q) == (scan_lines(p).0.push(line_without_cr(scan_lines(p).1))
            + scan_lines(q).0, scan_lines(q).1),
    decreases q.len(),
{
    let all = p + seq!['\n'] + q;
    let closed = scan_lines(p).0.push(line_without_cr(scan_lines(p).1));
    if q.len() == 0 {
        assert(all.drop_last() =~= p);
        assert(all.last() == '\n');
        assert(closed + Seq::<Seq<char>>::empty() =~= closed);
    } else {
        let q0 = q.drop_last();
        lemma_scan_after_newline(p, q0);
        assert(all.drop_last() =~= p + seq!['\n'] + q0);
        assert(all.last() == q.last());
        let (dq, oq) = scan_lines(q0);
        if q.last() == '\n' {
            assert(closed + dq.push(line_without_cr(oq)) =~= (closed + dq).push(
                line_without_cr(oq),
            ));
        }
    }
}

/// The open line of a scan is empty, or ends with the last character read.
proof fn lemma_open_line_end(p: Seq<char>)
    ensures
        scan_lines(p).1.len() == 0 || (p.len() > 0 && scan_lines(p).1.last() == p.last()),
{
}

/// The payloads of two runs of lines are the payloads of each, in order.
proof fn lemma_payloads_concat(x: Seq<Seq<char>>, y: Seq<Seq<char>>)
    ensures
        data_payloads(x + y) == data_payloads(x) + data_payloads(y),
    decreases y.len(),
{
    if y.len() == 0 {
        assert(x + y =~= x);
        assert(data_payloads(x) + Seq::<Seq<char>>::empty() =~= data_payloads(x));
    } else {
        let y0 = y.drop_last();
        lemma_payloads_concat(x, y0);
        assert((x + y).drop_last() =~= x + y0);
        assert((x + y).last() == y.last());
        if carries_payload(y.last()) {
            assert(data_payloads(x) + data_payloads(y0).push(
                y.last().skip(data_prefix().len() as int),
            ) =~= (data_payloads(x) + data_payloads(y0)).push(
                y.last().skip(data_prefix().len() as int),
            ));
        }
    }
}

/// Splitting a stream body at a line ending splits its payloads: the payloads
/// of `a`, a `\n`, then `b`, are those of `a` followed by those of `b`, as long
/// as `a` does not end with `\r` (which the line ending would take along).
pub proof fn lemma_payloads_split_at_newline(a: Seq<char>, b: Seq<char>)
    requires
        !(a.len() > 0 && a.last() == '\r'),
    ensures
        data_payloads(lines(a + seq!['\n'] + b)) == data_payloads(lines(a)) + data_payloads(
            lines(b),
        ),
{
    lemma_scan_after_newline(a, b);
    lemma_open_line_end(a);
    let (da, oa) = scan_lines(a);
    let (db, ob) = scan_lines(b);
    assert(line_without_cr(oa) == oa);
    let closed = da.push(oa);
    assert(lines(a + seq!['\n'] + b) =~= closed + lines(b));
    lemma_payloads_concat(closed, lines(b));
    assert(closed.drop_last() =~= da);
    if oa.len() == 0 {
        reveal_strlit("data: ");
        assert(!carries_payload(oa));
        assert(data_payloads(closed) == data_payloads(da));
    } else {
        assert(lines(a) == closed);
    }
}

} // verus!
