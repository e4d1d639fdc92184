//! The tables of a transport stream that name its video streams.
//!
//! The program association table names the identifiers that carry tables of streams. It comes in
//! sections, which are put together from the payloads of packets. In a table of streams each
//! stream type is followed by the identifier of the stream.

use vstd::prelude::*;

verus! {

/// The number of packet identifiers.
pub const PIDS: usize = 8192;

/// The most bytes of a section.
pub const MAX_SECTION: usize = 4098;

/// No identifier.
pub open spec fn no_pids() -> Seq<bool> {
    Seq::new(PIDS as nat, |p: int| false)
}

/// The identifier that two bytes spell: the low five bits of the first, and the second.
pub open spec fn spelled_pid(high: u8, low: u8) -> int {
    (high % 32) * 256 + low
}

/// The length of the section that begins here.
pub open spec fn section_size(buf: Seq<u8>) -> int {
    3 + (buf[1] % 16) * 256 + buf[2]
}

/// The number of entries of a program association table.
pub open spec fn entries(section: Seq<u8>) -> int {
    if section[0] == 0 && section.len() >= 12 {
        (section.len() - 12) / 4
    } else {
        0
    }
}

/// The identifiers that the first `n` entries name as well. An entry of program zero is for the
/// network.
pub open spec fn with_entries(set: Seq<bool>, section: Seq<u8>, n: int) -> Seq<bool>
    decreases n,
{
    if n <= 0 {
        set
    } else {
        let before = with_entries(set, section, n - 1);
        if section[4 * n + 4] == 0 && section[4 * n + 5] == 0 {
            before
        } else {
            before.update(spelled_pid(section[4 * n + 6], section[4 * n + 7]), true)
        }
    }
}

/// The whole sections at the beginning of some bytes: the identifiers that they name as well, and
/// the bytes of the section that is not whole. Stuffing ends them.
pub open spec fn sections_read(set: Seq<bool>, buf: Seq<u8>) -> (Seq<bool>, Seq<u8>)
    decreases buf.len(),
{
    if buf.len() < 3 {
        (set, buf)
    } else if buf[0] == 0xff {
        (set, Seq::empty())
    } else if buf.len() < section_size(buf) {
        (set, buf)
    } else {
        let section = buf.take(section_size(buf));
        sections_read(
            with_entries(set, section, entries(section)),
            buf.skip(section_size(buf)),
        )
    }
}

/// How many bytes of a payload belong to the section that came in part.
pub open spec fn lacking(part: Seq<u8>, available: int) -> int {
    let lack = if part.len() < 3 {
        MAX_SECTION - part.len()
    } else {
        section_size(part) - part.len()
    };
    if lack < 0 {
        0
    } else if lack < available {
        lack
    } else {
        available
    }
}

/// The section that came in part, with its end in a payload in which another section begins.
pub open spec fn completed(part: Seq<u8>, payload: Seq<u8>) -> Seq<u8> {
    let n = if payload[0] < payload.len() - 1 {
        payload[0] as int
    } else {
        payload.len() - 1
    };
    if part.len() > 0 && payload[0] > 0 && part.len() + n <= MAX_SECTION {
        part + payload.subrange(1, 1 + n)
    } else {
        Seq::empty()
    }
}

/// A payload of the program association table, after a section that came in part: the identifiers
/// that are named as well, and the section that comes in part now.
pub open spec fn table_read(
    set: Seq<bool>,
    part: Seq<u8>,
    payload: Seq<u8>,
    begins: bool,
) -> (Seq<bool>, Seq<u8>) {
    if begins {
        let ended = sections_read(set, completed(part, payload)).0;
        if 1 + payload[0] < payload.len() {
            sections_read(ended, payload.skip(1 + payload[0]))
        } else {
            (ended, Seq::empty())
        }
    } else if part.len() == 0 {
        (set, part)
    } else {
        sections_read(set, part + payload.take(lacking(part, payload.len() as int)))
    }
}

/// The identifiers that stand behind a stream type in one of the first `n` places as well.
pub open spec fn with_streams(set: Seq<bool>, window: Seq<u8>, kind: u8, n: int) -> Seq<bool>
    decreases n,
{
    if n <= 0 {
        set
    } else {
        let before = with_streams(set, window, kind, n - 1);
        if window[n - 1] == kind {
            before.update(spelled_pid(window[n], window[n + 1]), true)
        } else {
            before
        }
    }
}

/// No identifier.
pub fn no_pid_vec() -> (set: Vec<bool>)
    ensures
        set@ == no_pids(),
{
    let mut set: Vec<bool> = Vec::new();
    let mut i: usize = 0;
    while i < PIDS
        invariant
            i <= PIDS,
            set@ == Seq::new(i as nat, |p: int| false),
        decreases PIDS - i,
    {
        set.push(false);
        i = i + 1;
        assert(set@ =~= Seq::new(i as nat, |p: int| false));
    }
    set
}

/// The identifier that two bytes spell.
pub fn pid_at(high: u8, low: u8) -> (pid: usize)
    ensures
        pid == spelled_pid(high, low),
        pid < PIDS,
{
    (high % 32) as usize * 256 + low as usize
}

/// Add the identifiers that stand behind a stream type.
pub fn mark_streams(set: &mut Vec<bool>, window: &Vec<u8>, kind: u8)
    requires
        old(set)@.len() == PIDS,
        window@.len() >= 2,
    ensures
        final(set)@.len() == PIDS,
        final(set)@ == with_streams(old(set)@, window@, kind, window@.len() - 2),
{
    let mut n: usize = 0;
    while n < window.len() - 2
        invariant
            window@.len() >= 2,
            n <= window@.len() - 2,
            set@.len() == PIDS,
            set@ == with_streams(old(set)@, window@, kind, n as int),
        decreases window@.len() - n,
    {
        if window[n] == kind {
            let pid: usize = pid_at(window[n + 1], window[n + 2]);
            set.set(pid, true);
        }
        n = n + 1;
    }
}

fn mark_entries(set: &mut Vec<bool>, buf: &Vec<u8>, from: usize, size: usize)
    requires
        old(set)@.len() == PIDS,
        from + size <= buf@.len(),
        3 <= size,
    ensures
        final(set)@.len() == PIDS,
        ({
            let section = buf@.subrange(from as int, from + size);
            final(set)@ == with_entries(old(set)@, section, entries(section))
        }),
{
    let ghost section = buf@.subrange(from as int, from + size);
    assert(from + size <= buf.len());
    if buf[from] != 0 || size < 12 {
        return ;
    }
    let count: usize = (size - 12) / 4;
    let mut n: usize = 0;
    while n < count
        invariant
            n <= count,
            count == (size - 12) / 4,
            12 <= size,
            from + size <= buf@.len(),
            buf@.len() <= usize::MAX,
            section == buf@.subrange(from as int, from + size),
            set@.len() == PIDS,
            set@ == with_entries(old(set)@, section, n as int),
        decreases count - n,
    {
        let at: usize = from + 4 * n + 8;
        assert(section[4 * (n + 1) + 4] == buf@[at as int]);
        assert(section[4 * (n + 1) + 5] == buf@[at + 1]);
        assert(section[4 * (n + 1) + 6] == buf@[at + 2]);
        assert(section[4 * (n + 1) + 7] == buf@[at + 3]);
        if buf[at] != 0 || buf[at + 1] != 0 {
            let pid: usize = pid_at(buf[at + 2], buf[at + 3]);
            set.set(pid, true);
        }
        n = n + 1;
    }
}

fn read_sections(set: &mut Vec<bool>, buf: &Vec<u8>) -> (part: Vec<u8>)
    requires
        old(set)@.len() == PIDS,
    ensures
        final(set)@.len() == PIDS,
        (final(set)@, part@) == sections_read(old(set)@, buf@),
{
    let mut at: usize = 0;
    let ghost all = sections_read(set@, buf@);
    assert(buf@.skip(0) =~= buf@);
    while buf.len() - at >= 3 && buf[at] != 0xff && buf.len() - at >= 3 + (buf[at + 1] % 16) as usize
        * 256 + buf[at + 2] as usize
        invariant
            at <= buf@.len(),
            set@.len() == PIDS,
            all == sections_read(set@, buf@.skip(at as int)),
        decreases buf@.len() - at,
    {
        let size: usize = 3 + (buf[at + 1] % 16) as usize * 256 + buf[at + 2] as usize;
        let ghost rest = buf@.skip(at as int);
        assert(rest[1] == buf@[at + 1] && rest[2] == buf@[at + 2] && rest[0] == buf@[at as int]);
        assert(rest.take(size as int) =~= buf@.subrange(at as int, at + size));
        assert(rest.skip(size as int) =~= buf@.skip(at + size));
        mark_entries(set, buf, at, size);
        at = at + size;
    }
    let mut part: Vec<u8> = Vec::new();
    if buf.len() - at >= 3 && buf[at] == 0xff {
        assert(buf@.skip(at as int)[0] == 0xff);
        assert(part@ =~= Seq::empty());
        return part;
    }
    proof {
        let rest = buf@.skip(at as int);
        if rest.len() >= 3 {
            assert(rest[1] == buf@[at + 1] && rest[2] == buf@[at + 2]);
        }
    }
    let ghost from = at;
    while at < buf.len()
        invariant
            from <= at <= buf@.len(),
            part@ == buf@.subrange(from as int, at as int),
        decreases buf@.len() - at,
    {
        part.push(buf[at]);
        assert(part@ =~= buf@.subrange(from as int, at + 1));
        at = at + 1;
    }
    assert(part@ =~= buf@.skip(from as int));
    part
}

fn append(part: &mut Vec<u8>, buf: &Vec<u8>, from: usize, to: usize)
    requires
        from <= to <= buf@.len(),
    ensures
        final(part)@ == old(part)@ + buf@.subrange(from as int, to as int),
{
    let mut i: usize = from;
    assert(part@ =~= old(part)@ + buf@.subrange(from as int, i as int));
    while i < to
        invariant
            from <= i <= to <= buf@.len(),
            part@ == old(part)@ + buf@.subrange(from as int, i as int),
        decreases to - i,
    {
        part.push(buf[i]);
        assert(part@ =~= old(part)@ + buf@.subrange(from as int, i + 1));
        i = i + 1;
    }
}

/// Read a payload of the program association table, which stands in `buf` between two places,
/// after a section that came in part, and return the section that comes in part now.
pub fn read_table(
    set: &mut Vec<bool>,
    before: Vec<u8>,
    buf: &Vec<u8>,
    from: usize,
    to: usize,
    begins: bool,
) -> (part: Vec<u8>)
    requires
        old(set)@.len() == PIDS,
        from < to <= buf@.len(),
    ensures
        final(set)@.len() == PIDS,
        (final(set)@, part@) == table_read(
            old(set)@,
            before@,
            buf@.subrange(from as int, to as int),
            begins,
        ),
{
    let ghost payload = buf@.subrange(from as int, to as int);
    let len: usize = to - from;
    let mut part: Vec<u8> = before;
    assert(payload[0] == buf@[from as int]);
    if begins {
        let pointer: usize = buf[from] as usize;
        let n: usize = if pointer < len - 1 {
            pointer
        } else {
            len - 1
        };
        if part.len() > 0 && pointer > 0 && part.len() <= MAX_SECTION && part.len() + n <= MAX_SECTION {
            append(&mut part, buf, from + 1, from + 1 + n);
            assert(part@ =~= completed(before@, payload)) by {
                assert(buf@.subrange(from + 1, from + 1 + n) =~= payload.subrange(1, 1 + n));
            }
        } else {
            part = Vec::new();
            assert(part@ =~= completed(before@, payload));
        }
        let _left: Vec<u8> = read_sections(set, &part);
        let mut fresh: Vec<u8> = Vec::new();
        if 1 + pointer < len {
            append(&mut fresh, buf, from + 1 + pointer, to);
            assert(fresh@ =~= payload.skip(1 + pointer));
            read_sections(set, &fresh)
        } else {
            assert(fresh@ =~= Seq::empty());
            fresh
        }
    } else if part.len() == 0 {
        part
    } else {
        let size: usize = if part.len() < 3 {
            MAX_SECTION
        } else {
            3 + (part[1] % 16) as usize * 256 + part[2] as usize
        };
        let lack: usize = if part.len() >= size {
            0
        } else {
            size - part.len()
        };
        let n: usize = if lack < len {
            lack
        } else {
            len
        };
        append(&mut part, buf, from, from + n);
        assert(part@ =~= before@ + payload.take(lacking(before@, len as int)));
        read_sections(set, &part)
    }
}

/// A stream that was named stays named.
pub proof fn lemma_streams_stay(set: Seq<bool>, window: Seq<u8>, kind: u8, n: int)
    requires
        set.len() == PIDS,
    ensures
        with_streams(set, window, kind, n).len() == PIDS,
        forall|p: int|
            0 <= p < PIDS && #[trigger] set[p] ==> with_streams(set, window, kind, n)[p],
    decreases n,
{
    if n > 0 {
        lemma_streams_stay(set, window, kind, n - 1);
    }
}

proof fn lemma_entries_keep_size(set: Seq<bool>, section: Seq<u8>, n: int)
    requires
        set.len() == PIDS,
    ensures
        with_entries(set, section, n).len() == PIDS,
    decreases n,
{
    if n > 0 {
        lemma_entries_keep_size(set, section, n - 1);
    }
}

proof fn lemma_sections_keep_size(set: Seq<bool>, buf: Seq<u8>)
    requires
        set.len() == PIDS,
    ensures
        sections_read(set, buf).0.len() == PIDS,
    decreases buf.len(),
{
    if buf.len() >= 3 && buf[0] != 0xff && buf.len() >= section_size(buf) {
        let section = buf.take(section_size(buf));
        lemma_entries_keep_size(set, section, entries(section));
        lemma_sections_keep_size(
            with_entries(set, section, entries(section)),
            buf.skip(section_size(buf)),
        );
    }
}

/// A program association table names identifiers, and there are no more and no fewer of them.
pub proof fn lemma_table_keeps_size(
    set: Seq<bool>,
    part: Seq<u8>,
    payload: Seq<u8>,
    begins: bool,
)
    requires
        set.len() == PIDS,
    ensures
        table_read(set, part, payload, begins).0.len() == PIDS,
{
    lemma_sections_keep_size(set, completed(part, payload));
    let ended = sections_read(set, completed(part, payload)).0;
    lemma_sections_keep_size(ended, payload.skip(1 + payload[0]));
    lemma_sections_keep_size(set, part + payload.take(lacking(part, payload.len() as int)));
}

/// The identifier that two bytes spell has thirteen bits: the high five stand in the low bits of
/// the first byte, whatever stands above them.
pub proof fn law_identifier_has_thirteen_bits(pid: int, above: int, high: u8, low: u8)
    requires
        0 <= pid < 8192,
        0 <= above < 8,
        high == 32 * above + pid / 256,
        low == pid % 256,
    ensures
        spelled_pid(high, low) == pid,
{
}

/// The length of a section has twelve bits and counts what follows it.
pub proof fn law_section_length_has_twelve_bits(buf: Seq<u8>, length: int, above: int)
    requires
        buf.len() >= 3,
        0 <= length < 4096,
        0 <= above < 16,
        buf[1] == 16 * above + length / 256,
        buf[2] == length % 256,
    ensures
        section_size(buf) == 3 + length,
{
}

/// No identifier is named before a table was read.
pub proof fn law_no_identifier_is_named_at_first(p: int)
    ensures
        no_pids().len() == 8192,
        0 <= p < 8192 ==> !no_pids()[p],
{
}

/// Entry `k` of a program association table, of four bytes behind a head of eight, is for a
/// program and names identifier `p`.
pub open spec fn names(section: Seq<u8>, k: int, p: int) -> bool {
    &&& section[8 + 4 * k] != 0 || section[9 + 4 * k] != 0
    &&& spelled_pid(section[10 + 4 * k], section[11 + 4 * k]) == p
}

/// The identifiers that a table names are named behind it, along with those that were: every
/// entry but the one for the network names one.
pub proof fn law_entries_name_identifiers(set: Seq<bool>, section: Seq<u8>, n: int, p: int)
    requires
        set.len() == 8192,
        0 <= p < 8192,
    ensures
        with_entries(set, section, n).len() == 8192,
        with_entries(set, section, n)[p] <==> set[p] || exists|k: int|
            0 <= k < n && #[trigger] names(section, k, p),
    decreases n,
{
    if n > 0 {
        law_entries_name_identifiers(set, section, n - 1, p);
        let before = with_entries(set, section, n - 1);
        let k = n - 1;
        assert(section[4 * n + 4] == section[8 + 4 * k] && section[4 * n + 5] == section[9 + 4 * k]
            && section[4 * n + 6] == section[10 + 4 * k] && section[4 * n + 7] == section[11 + 4
            * k]);
        if names(section, k, p) {
            assert(with_entries(set, section, n)[p]);
        } else if before[p] {
            if !set[p] {
                let j = choose|j: int| 0 <= j < n - 1 && #[trigger] names(section, j, p);
                assert(names(section, j, p));
            }
        } else {
            assert(!with_entries(set, section, n)[p]);
        }
    }
}

/// A program association table, which has table number zero, holds an entry for every four bytes
/// between its head of eight and its checksum of four. Other tables hold none.
pub proof fn law_table_is_full_of_entries(section: Seq<u8>, count: int)
    requires
        section.len() > 0,
        0 <= count,
    ensures
        section[0] == 0 && 12 + 4 * count <= section.len() < 16 + 4 * count ==> entries(section)
            == count,
        section[0] == 0 && section.len() < 12 ==> entries(section) == 0,
        section[0] != 0 ==> entries(section) == 0,
{
}

/// A whole section is read, and what follows it is read after it. Stuffing ends the reading, and a
/// section that is not whole waits.
pub proof fn law_sections_are_read_one_after_the_other(
    set: Seq<bool>,
    section: Seq<u8>,
    rest: Seq<u8>,
    k: int,
)
    requires
        section.len() >= 3,
        section.len() == section_size(section),
        section[0] != 0xff,
    ensures
        sections_read(set, section + rest) == sections_read(
            with_entries(set, section, entries(section)),
            rest,
        ),
        rest.len() >= 3 && rest[0] == 0xff ==> sections_read(set, rest) == (
            set,
            Seq::<u8>::empty(),
        ),
        0 <= k < section.len() ==> sections_read(set, section.take(k)) == (set, section.take(k)),
        sections_read(set, Seq::empty()) == (set, Seq::<u8>::empty()),
{
    let all = section + rest;
    assert(all.take(section.len() as int) =~= section);
    assert(all.skip(section.len() as int) =~= rest);
}

/// A section that comes in two payloads is read as one that comes in one. The part of it behind
/// its length waits in between; what follows it in a payload in which nothing begins is left out.
pub proof fn law_section_in_two_payloads_is_read_whole(
    set: Seq<bool>,
    section: Seq<u8>,
    k: int,
    tail: Seq<u8>,
)
    requires
        section.len() == section_size(section),
        section[0] != 0xff,
        3 <= k < section.len(),
    ensures
        ({
            let (first, part) = table_read(set, Seq::empty(), seq![0u8] + section.take(k), true);
            &&& first == set
            &&& part == section.take(k)
            &&& table_read(first, part, section.skip(k) + tail, false) == (
                with_entries(set, section, entries(section)),
                Seq::<u8>::empty(),
            )
        }),
{
    let payload = seq![0u8] + section.take(k);
    assert(payload.skip(1) =~= section.take(k));
    law_sections_are_read_one_after_the_other(set, section, Seq::empty(), k);
    assert(completed(Seq::empty(), payload) =~= Seq::empty());
    let part = section.take(k);
    let rest = section.skip(k) + tail;
    assert(lacking(part, rest.len() as int) == section.len() - k);
    assert(part + rest.take(section.len() - k) =~= section);
    assert(section + Seq::<u8>::empty() =~= section);
}

/// Where another section begins in the payload that ends one, the first byte says how much of the
/// payload comes before: the one is ended with that, and the other is read after it.
pub proof fn law_pointer_parts_the_sections(set: Seq<bool>, section: Seq<u8>, k: int, next: Seq<u8>)
    requires
        section.len() == section_size(section),
        section[0] != 0xff,
        0 < k < section.len(),
        section.len() - k < 256,
        next.len() > 0,
    ensures
        table_read(
            set,
            section.take(k),
            seq![(section.len() - k) as u8] + section.skip(k) + next,
            true,
        ) == sections_read(with_entries(set, section, entries(section)), next),
{
    let payload = seq![(section.len() - k) as u8] + section.skip(k) + next;
    let part = section.take(k);
    assert(payload.subrange(1, 1 + section.len() - k) =~= section.skip(k));
    assert(completed(part, payload) =~= section);
    assert(payload.skip(1 + section.len() - k) =~= next);
    assert(section + Seq::<u8>::empty() =~= section);
    law_sections_are_read_one_after_the_other(set, section, Seq::empty(), 0);
}

/// A payload in which nothing begins says nothing where no section waits.
pub proof fn law_payload_without_a_beginning_is_left_out(set: Seq<bool>, payload: Seq<u8>)
    ensures
        table_read(set, Seq::empty(), payload, false) == (set, Seq::<u8>::empty()),
{
}

/// The identifiers that stand right behind a stream type are named behind it, along with those
/// that were.
pub proof fn law_streams_stand_behind_their_type(
    set: Seq<bool>,
    window: Seq<u8>,
    kind: u8,
    n: int,
    p: int,
)
    requires
        set.len() == 8192,
        0 <= p < 8192,
    ensures
        with_streams(set, window, kind, n).len() == 8192,
        with_streams(set, window, kind, n)[p] <==> set[p] || exists|i: int|
            0 <= i < n && #[trigger] window[i] == kind && spelled_pid(window[i + 1], window[i + 2])
                == p,
    decreases n,
{
    if n > 0 {
        law_streams_stand_behind_their_type(set, window, kind, n - 1, p);
        let before = with_streams(set, window, kind, n - 1);
        if window[n - 1] == kind && spelled_pid(window[n], window[n + 1]) == p {
            let i = n - 1;
            assert(window[i] == kind && spelled_pid(window[i + 1], window[i + 2]) == p);
        } else if before[p] && !set[p] {
            let j = choose|j: int|
                0 <= j < n - 1 && #[trigger] window[j] == kind && spelled_pid(
                    window[j + 1],
                    window[j + 2],
                ) == p;
            assert(window[j] == kind);
        }
    }
}

} // verus!
