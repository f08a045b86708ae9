//! Where archives lie, how much of them is restored, and which of them go.

use crate::path::PartView;
use crate::time::Timestamp;
use crate::transcript_archive::{
    age_order, archive_parts, archived_session, are_archives, bytes_of, evicted, hex,
    is_archive_of, over_budget, pruning_accounts_for_every_byte, pruning_takes_the_oldest, recent,
    restore_limit, retention_cutoff, session_ids, stale, surviving, valid_project_id, ArchiveFile,
    StoredArchive,
};
use vstd::prelude::*;
use vstd::relations::sorted_by;

verus! {

/// A project id is accepted exactly where it is a plain name of at most sixty-four
/// ASCII letters, digits, underscores and hyphens.
pub proof fn a_project_id_is_a_plain_name(s: Seq<char>)
    ensures
        valid_project_id(s) <==> 0 < s.len() <= 64 && forall|i: int|
            0 <= i < s.len() ==> 'a' <= #[trigger] s[i] <= 'z' || 'A' <= s[i] <= 'Z' || '0' <= s[i]
                <= '9' || s[i] == '_' || s[i] == '-',
{
    if valid_project_id(s) {
        assert forall|i: int| 0 <= i < s.len() implies 'a' <= #[trigger] s[i] <= 'z' || 'A' <= s[i]
            <= 'Z' || '0' <= s[i] <= '9' || s[i] == '_' || s[i] == '-' by {
            assert(crate::text::is_ascii_alphanumeric(s[i]) || s[i] == '_' || s[i] == '-');
        }
    }
}

/// An archive lies in the transcripts of its project, under its session's id with
/// the ending of archives.
pub proof fn an_archive_lies_under_its_project_and_session(
    project_id: Seq<char>,
    session_id: Seq<char>,
    name: Seq<char>,
)
    ensures
        archive_parts(project_id, session_id).len() == 4,
        archive_parts(project_id, session_id)[0] == PartView::Name("projects"@),
        archive_parts(project_id, session_id)[1] == PartView::Name(project_id),
        archive_parts(project_id, session_id)[2] == PartView::Name("transcripts"@),
        archive_parts(project_id, session_id)[3] == PartView::Name(session_id + ".jsonl.zst"@),
        archived_session(name) == Some(session_id) <==> name == session_id + ".jsonl.zst"@,
        archived_session(name) is None <==> !exists|s: Seq<char>|
            name == #[trigger] (s + ".jsonl.zst"@),
{
    reveal_strlit(".");
    reveal_strlit("jsonl.zst");
    reveal_strlit(".jsonl.zst");
    let suffix = "."@ + "jsonl.zst"@;
    assert(suffix =~= ".jsonl.zst"@);
    assert(session_id + "."@ + "jsonl.zst"@ =~= session_id + ".jsonl.zst"@);
    let full = session_id + suffix;
    assert(full.skip(full.len() - suffix.len()) =~= suffix);
    assert(full.take(full.len() - suffix.len()) =~= session_id);
    if archived_session(name) is Some {
        let s = name.take(name.len() - suffix.len());
        assert(name =~= s + suffix);
    }
    if exists|s: Seq<char>| name == #[trigger] (s + ".jsonl.zst"@) {
        let s = choose|s: Seq<char>| name == #[trigger] (s + ".jsonl.zst"@);
        assert(name.skip(name.len() - suffix.len()) =~= suffix);
        assert(name.take(name.len() - suffix.len()) =~= s);
    }
}

/// No more is restored than the recorded size and sixty-four kibibytes, and never
/// more than two hundred and fifty-six mebibytes.
pub proof fn restoring_is_bounded(expected: u64)
    ensures
        restore_limit(None) == 268_435_456,
        expected + 65_536 <= 268_435_456 ==> restore_limit(Some(expected)) == expected + 65_536,
        expected + 65_536 > 268_435_456 ==> restore_limit(Some(expected)) == 268_435_456,
{
}

/// A digest is written with two lowercase hexadecimal digits for each byte, the
/// higher half first.
pub proof fn a_digest_has_two_digits_for_each_byte(bytes: Seq<u8>, i: int)
    requires
        0 <= i < bytes.len(),
    ensures
        hex(bytes).len() == 2 * bytes.len(),
        ({
            let digits = "0123456789abcdef"@;
            &&& hex(bytes)[2 * i] == digits[bytes[i] as int / 16]
            &&& hex(bytes)[2 * i + 1] == digits[bytes[i] as int % 16]
        }),
    decreases bytes.len(),
{
    reveal_strlit("0123456789abcdef");
    let before = bytes.drop_last();
    if before.len() > 0 {
        if i < before.len() {
            a_digest_has_two_digits_for_each_byte(before, i);
            assert(before[i] == bytes[i]);
        } else {
            a_digest_has_two_digits_for_each_byte(before, 0);
        }
    } else {
        assert(hex(before).len() == 0);
    }
}

/// The archives of a directory are its files with the ending of archives, each with
/// the size and the time of its file, and no other file.
pub proof fn every_archive_file_is_an_archive(
    found: Seq<StoredArchive>,
    files: Seq<ArchiveFile>,
    i: int,
    k: int,
)
    requires
        are_archives(found, files),
    ensures
        0 <= i < files.len() && (exists|s: Seq<char>|
            files[i].name@ == #[trigger] (s + ".jsonl.zst"@)) ==> exists|j: int|
            0 <= j < found.len() && files[i].name@ == (#[trigger] found[j]).session_id@
                + ".jsonl.zst"@ && found[j].path == files[i].path && found[j].bytes
                == files[i].bytes && found[j].modified == files[i].modified,
        0 <= k < found.len() ==> exists|j: int|
            0 <= j < files.len() && (#[trigger] files[j]).name@ == found[k].session_id@
                + ".jsonl.zst"@ && found[k].path == files[j].path && found[k].bytes
                == files[j].bytes && found[k].modified == files[j].modified,
        found.len() <= files.len(),
{
    let keep = |f: ArchiveFile| archived_session(f.name@) is Some;
    let named = files.filter(keep);
    files.lemma_filter_len(keep);
    if 0 <= i < files.len() && (exists|s: Seq<char>|
        files[i].name@ == #[trigger] (s + ".jsonl.zst"@)) {
        an_archive_lies_under_its_project_and_session(Seq::empty(), Seq::empty(), files[i].name@);
        assert(files.contains(files[i]));
        crate::seqs::lemma_filter_contains(files, keep, files[i]);
        let j = choose|j: int| 0 <= j < named.len() && named[j] == files[i];
        assert(is_archive_of(found[j], named[j]));
        an_archive_lies_under_its_project_and_session(
            Seq::empty(),
            found[j].session_id@,
            files[i].name@,
        );
        assert(files[i].name@ == found[j].session_id@ + ".jsonl.zst"@);
    }
    if 0 <= k < found.len() {
        assert(is_archive_of(found[k], named[k]));
        assert(named.contains(named[k]));
        crate::seqs::lemma_filter_contains(files, keep, named[k]);
        let j = choose|j: int| 0 <= j < files.len() && files[j] == named[k];
        an_archive_lies_under_its_project_and_session(
            Seq::empty(),
            found[k].session_id@,
            files[j].name@,
        );
        assert(files[j].name@ == found[k].session_id@ + ".jsonl.zst"@);
    }
}

/// Archives are in order where none was modified after one that follows it.
pub proof fn archives_are_ordered_by_their_age(a: StoredArchive, b: StoredArchive)
    ensures
        age_order()(a, b) <==> a.modified.secs < b.modified.secs || (a.modified.secs
            == b.modified.secs && a.modified.nanos <= b.modified.nanos),
{
}

/// The bytes of archives are added up, each one's once; and what goes is named by
/// its sessions, in order.
pub proof fn bytes_are_added_up(a: Seq<StoredArchive>, b: Seq<StoredArchive>, x: StoredArchive)
    ensures
        bytes_of(Seq::empty()) == 0,
        bytes_of(seq![x]) == x.bytes,
        bytes_of(a + b) == bytes_of(a) + bytes_of(b),
        session_ids(seq![x]) == seq![x.session_id@],
        session_ids(a + b) == session_ids(a) + session_ids(b),
    decreases b.len(),
{
    let one = seq![x];
    assert(one.drop_last() =~= Seq::empty());
    assert(bytes_of(one.drop_last()) == 0);
    assert(session_ids(one) =~= seq![x.session_id@]);
    assert(session_ids(a + b) =~= session_ids(a) + session_ids(b));
    if b.len() == 0 {
        assert(a + b =~= a);
    } else {
        bytes_are_added_up(a, b.drop_last(), x);
        assert((a + b).drop_last() =~= a + b.drop_last());
        assert((a + b).last() == b.last());
    }
}

/// A limit of so many days ends so many times twenty-four hours before a time. A
/// limit that reaches beyond all dates is none.
pub proof fn a_retention_is_counted_back_in_days(now: Timestamp, days: u64)
    requires
        now.nanos < 1_000_000_000,
        -8_334_601_228_800 <= now.secs <= 8_210_266_876_799,
    ensures
        -8_334_601_228_800 <= now.secs - days * 86_400 ==> (retention_cutoff(
            now,
            days,
        ) matches Some(t) && t.secs == now.secs - days * 86_400 && t.nanos == now.nanos),
        now.secs - days * 86_400 < -8_334_601_228_800 ==> retention_cutoff(now, days) is None,
{
}

/// Whether an archive was modified before the limit of age.
pub open spec fn is_past(a: StoredArchive, cutoff: Option<Timestamp>) -> bool {
    cutoff matches Some(t) && (a.modified.secs < t.secs || (a.modified.secs == t.secs
        && a.modified.nanos < t.nanos))
}

/// Of archives in the order of their age a first part goes, and only as far as need
/// be: each one that goes is past the limit of age, or it and those behind it take
/// more bytes than there may be. None that stays is past the limit, and together
/// they take no more than there may be.
pub proof fn pruning_goes_no_further_than_needed(
    archives: Seq<StoredArchive>,
    cutoff: Option<Timestamp>,
    max_bytes: u64,
    k: int,
)
    requires
        sorted_by(archives, age_order()),
        0 <= k < archives.len(),
    ensures
        ({
            let n = evicted(archives, cutoff, max_bytes).len() as int;
            &&& evicted(archives, cutoff, max_bytes) == archives.take(n)
            &&& surviving(archives, cutoff, max_bytes) == archives.skip(n)
            &&& k < n ==> is_past(archives[k], cutoff) || (max_bytes > 0 && bytes_of(
                archives.skip(k),
            ) > max_bytes)
            &&& k >= n ==> !is_past(archives[k], cutoff)
            &&& max_bytes > 0 ==> bytes_of(archives.skip(n)) <= max_bytes
        }),
{
    pruning_takes_the_oldest(archives, cutoff, max_bytes);
    pruning_accounts_for_every_byte(archives, cutoff, max_bytes);
    let gone = evicted(archives, cutoff, max_bytes);
    let n = gone.len() as int;
    let rest = recent(archives, cutoff);
    let old = stale(archives, cutoff);
    let m = over_budget(rest, max_bytes) as int;
    let too = |a: StoredArchive| crate::transcript_archive::too_old(a, cutoff);
    let fine = |a: StoredArchive| !crate::transcript_archive::too_old(a, cutoff);
    lemma_budget(rest, max_bytes, 0);
    assert(gone == old + rest.take(m));
    if k < old.len() {
        assert(gone[k] == old[k]);
        assert(archives.take(n)[k] == archives[k]);
        assert(old.contains(old[k]));
        crate::seqs::lemma_filter_contains(archives, too, old[k]);
    } else if k < n {
        let j = k - old.len();
        assert(gone[k] == rest[j]);
        lemma_budget(rest, max_bytes, j);
        assert(rest.skip(j) =~= archives.skip(k)) by {
            assert(surviving(archives, cutoff, max_bytes) == rest.skip(m));
            assert(rest.len() == rest.take(m).len() + rest.skip(m).len());
            assert forall|i: int| 0 <= i < rest.len() - j implies rest.skip(j)[i]
                == archives.skip(k)[i] by {
                if j + i < m {
                    assert(gone[k + i] == rest[j + i]);
                    assert(archives.take(n)[k + i] == archives[k + i]);
                } else {
                    assert(rest.skip(m)[j + i - m] == rest[j + i]);
                    assert(archives.skip(n)[j + i - m] == archives[n + j + i - m]);
                }
            }
            assert(gone.len() + surviving(archives, cutoff, max_bytes).len() == archives.len());
        }
    } else {
        let s = surviving(archives, cutoff, max_bytes);
        assert(s[k - n] == archives[k]);
        assert(rest.skip(m)[k - n] == rest[m + k - n]);
        assert(rest.contains(rest[m + k - n]));
        crate::seqs::lemma_filter_contains(archives, fine, rest[m + k - n]);
    }
}

/// However many are dropped first, there are too many bytes until enough are.
proof fn lemma_budget(rest: Seq<StoredArchive>, max_bytes: u64, j: int)
    requires
        0 <= j,
    ensures
        over_budget(rest, max_bytes) <= rest.len(),
        j < over_budget(rest, max_bytes) ==> max_bytes > 0 && bytes_of(rest.skip(j)) > max_bytes,
        max_bytes > 0 ==> bytes_of(rest.skip(over_budget(rest, max_bytes) as int)) <= max_bytes,
    decreases rest.len(),
{
    assert(rest.skip(0) =~= rest);
    if !(max_bytes == 0 || rest.len() == 0 || bytes_of(rest) <= max_bytes) {
        let t = rest.drop_first();
        let m = over_budget(t, max_bytes) as int;
        lemma_budget(t, max_bytes, if j > 0 {
            j - 1
        } else {
            0
        });
        assert(t.skip(m) =~= rest.skip(m + 1));
        if j > 0 && j < m + 1 {
            assert(t.skip(j - 1) =~= rest.skip(j));
        }
    }
}

} // verus!
