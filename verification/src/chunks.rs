//! Source text in pieces that a single answer can cover.

use crate::manager::Manager;
use crate::quality::with_newlines;
use crate::text::{
    byte_len, bytes, first_from, lemma_first_from, lemma_newline_found, lines, lines_of,
    starts_with, texts, trim_start, trimmed_start, without_return,
};
use vstd::prelude::*;
use vstd::string::StringExecFns;
use vstd::utf8::encode_utf8;

verus! {

/// The least size of a chunk that another one follows, in bytes.
pub const CHUNK_TARGET: usize = 8_000;

/// Source up to this size, in bytes, is never split.
pub const SPLIT_THRESHOLD: usize = 100_000;

/// Whether an item begins on `line`.
pub open spec fn begins_item(line: Seq<char>) -> bool {
    let t = trimmed_start(line);
    ||| "pub fn "@.is_prefix_of(t)
    ||| "fn "@.is_prefix_of(t)
    ||| "pub async fn "@.is_prefix_of(t)
    ||| "async fn "@.is_prefix_of(t)
    ||| "impl "@.is_prefix_of(t)
    ||| "pub impl "@.is_prefix_of(t)
    ||| "pub struct "@.is_prefix_of(t)
    ||| "pub enum "@.is_prefix_of(t)
    ||| "struct "@.is_prefix_of(t)
    ||| "enum "@.is_prefix_of(t)
}

/// The size, in bytes, from which on a chunk can end: an equal share of the source, rounded
/// up, and no less than `CHUNK_TARGET`.
pub open spec fn chunk_size(len: nat, target: nat) -> nat {
    let parts = if target == 0 {
        1
    } else {
        target
    };
    let share = len / parts + if len % parts == 0 {
        0nat
    } else {
        1nat
    };
    if share < CHUNK_TARGET {
        CHUNK_TARGET as nat
    } else {
        share
    }
}

/// Chunks that are being filled: those that are complete, and the open one.
pub struct ChunksView {
    pub full: Seq<Seq<char>>,
    pub open: Seq<char>,
}

/// Chunks after one more line. The open chunk ends before an item, once it has its size.
pub open spec fn chunk_line(c: ChunksView, line: Seq<char>, size: nat) -> ChunksView {
    if begins_item(line) && byte_len(c.open) >= size {
        ChunksView { full: c.full.push(c.open), open: line + "\n"@ }
    } else {
        ChunksView { full: c.full, open: c.open + line + "\n"@ }
    }
}

/// Chunks after `lines`.
pub open spec fn chunk_lines(lines: Seq<Seq<char>>, size: nat) -> ChunksView
    decreases lines.len(),
{
    if lines.len() == 0 {
        ChunksView { full: Seq::empty(), open: Seq::empty() }
    } else {
        chunk_line(chunk_lines(lines.drop_last(), size), lines.last(), size)
    }
}

/// The chunks of a source text: at least one, the last of them of any size.
pub open spec fn chunks_of(source: Seq<char>, target: nat) -> Seq<Seq<char>> {
    let c = chunk_lines(lines_of(source), chunk_size(byte_len(source), target));
    if c.open.len() > 0 {
        c.full.push(c.open)
    } else {
        seq![source]
    }
}

fn item_begins(line: &str) -> (r: bool)
    ensures
        r == begins_item(line@),
{
    let t = trim_start(line);
    let t = t.as_str();
    starts_with(t, "pub fn ") || starts_with(t, "fn ") || starts_with(t, "pub async fn ")
        || starts_with(t, "async fn ") || starts_with(t, "impl ") || starts_with(t, "pub impl ")
        || starts_with(t, "pub struct ") || starts_with(t, "pub enum ") || starts_with(
        t,
        "struct ",
    ) || starts_with(t, "enum ")
}

impl Manager {
    /// Splits Rust source into at most `target_count` chunks, each of which but the first
    /// begins with an item.
    pub fn split_source_n(source: &str, target_count: usize) -> (r: Vec<String>)
        ensures
            texts(r@) == chunks_of(source@, target_count as nat),
    {
        let parts: usize = if target_count == 0 {
            1
        } else {
            target_count
        };
        let len: usize = bytes(source);
        let mut size: usize = len / parts;
        if len % parts != 0 {
            assert(size < usize::MAX) by {
                if parts == 1 {
                    assert(len % parts == 0);
                } else {
                    assert(len as int / parts as int <= len as int / 2) by (nonlinear_arith)
                        requires
                            parts >= 2,
                            len >= 0,
                    ;
                }
            }
            size += 1;
        }
        if size < CHUNK_TARGET {
            size = CHUNK_TARGET;
        }
        assert(size == chunk_size(byte_len(source@), target_count as nat));
        let all = lines(source);
        let ghost views = texts(all@);
        let mut full: Vec<String> = Vec::new();
        let mut open = String::new();
        let mut i: usize = 0;
        assert(texts(full@) =~= Seq::<Seq<char>>::empty());
        assert(open@ =~= Seq::<char>::empty());
        assert(views.take(0) =~= Seq::<Seq<char>>::empty());
        while i < all.len()
            invariant
                i <= all@.len(),
                views == texts(all@),
                (ChunksView { full: texts(full@), open: open@ }) == chunk_lines(
                    views.take(i as int),
                    size as nat,
                ),
            decreases all@.len() - i,
        {
            assert(views.take(i + 1).drop_last() =~= views.take(i as int));
            assert(views.take(i + 1).last() == all@[i as int]@);
            let line = all[i].as_str();
            if item_begins(line) && bytes(open.as_str()) >= size {
                let ghost had = full@;
                full.push(open);
                assert(texts(full@) =~= texts(had).push(open@));
                open = line.to_owned();
            } else {
                open.append(line);
            }
            open.append("\n");
            i += 1;
        }
        assert(views.take(i as int) =~= views);
        if open.as_str().is_empty() {
            let out: Vec<String> = vec![source.to_owned()];
            assert(texts(out@) =~= seq![source@]);
            out
        } else {
            let ghost had = full@;
            full.push(open);
            assert(texts(full@) =~= texts(had).push(open@));
            full
        }
    }

    /// Splits Rust source as `split_source_n` does into one chunk.
    pub fn split_source(source: &str) -> (r: Vec<String>)
        ensures
            texts(r@) == chunks_of(source@, 1),
    {
        Self::split_source_n(source, 1)
    }
}

/// The texts of `list`, one after the other.
pub open spec fn concatenated(list: Seq<Seq<char>>) -> Seq<char>
    decreases list.len(),
{
    if list.len() == 0 {
        Seq::empty()
    } else {
        concatenated(list.drop_last()) + list.last()
    }
}

proof fn lemma_chunks_hold_lines(lines: Seq<Seq<char>>, size: nat)
    ensures
        concatenated(chunk_lines(lines, size).full) + chunk_lines(lines, size).open
            == with_newlines(lines),
        lines.len() > 0 ==> chunk_lines(lines, size).open.len() > 0,
        lines.len() == 0 ==> chunk_lines(lines, size).open.len() == 0,
    decreases lines.len(),
{
    reveal_strlit("\n");
    if lines.len() == 0 {
        assert(concatenated(chunk_lines(lines, size).full) + chunk_lines(lines, size).open
            =~= with_newlines(lines));
    } else {
        lemma_chunks_hold_lines(lines.drop_last(), size);
        let c = chunk_lines(lines.drop_last(), size);
        let d = chunk_lines(lines, size);
        if begins_item(lines.last()) && byte_len(c.open) >= size {
            assert(d.full.drop_last() =~= c.full);
            assert(concatenated(d.full) + d.open =~= concatenated(c.full) + c.open + lines.last()
                + "\n"@);
        } else {
            assert(concatenated(d.full) + d.open =~= concatenated(c.full) + c.open + lines.last()
                + "\n"@);
        }
    }
}

/// Splitting loses nothing: the chunks, one after the other, are the lines of the source, each
/// with its newline.
pub proof fn law_chunks_hold_the_source(source: Seq<char>, target: nat)
    requires
        source.len() > 0,
    ensures
        concatenated(chunks_of(source, target)) == with_newlines(lines_of(source)),
{
    let size = chunk_size(byte_len(source), target);
    let c = chunk_lines(lines_of(source), size);
    lemma_chunks_hold_lines(lines_of(source), size);
    lemma_first_from(source, seq!['\n'], 0);
    assert(lines_of(source).len() > 0);
    assert(chunks_of(source, target).drop_last() =~= c.full);
}

proof fn lemma_byte_len_adds(a: Seq<char>, b: Seq<char>)
    ensures
        byte_len(a + b) == byte_len(a) + byte_len(b),
    decreases a.len(),
{
    if a.len() == 0 {
        assert(a + b =~= b);
    } else {
        assert((a + b).drop_first() =~= a.drop_first() + b);
        lemma_byte_len_adds(a.drop_first(), b);
    }
}

proof fn lemma_byte_len_at_least(s: Seq<char>)
    ensures
        byte_len(s) >= s.len(),
    decreases s.len(),
{
    if s.len() > 0 {
        lemma_byte_len_at_least(s.drop_first());
        assert(encode_utf8(s) == vstd::utf8::encode_scalar(s[0] as u32) + encode_utf8(
            s.drop_first(),
        ));
    }
}

proof fn lemma_trim_shortens(s: Seq<char>)
    ensures
        trimmed_start(s).len() <= s.len(),
    decreases s.len(),
{
    if s.len() > 0 {
        lemma_trim_shortens(s.skip(1));
    }
}

proof fn lemma_items_have_length(line: Seq<char>)
    requires
        begins_item(line),
    ensures
        line.len() >= 3,
{
    reveal_strlit("pub fn ");
    reveal_strlit("fn ");
    reveal_strlit("pub async fn ");
    reveal_strlit("async fn ");
    reveal_strlit("impl ");
    reveal_strlit("pub impl ");
    reveal_strlit("pub struct ");
    reveal_strlit("pub enum ");
    reveal_strlit("struct ");
    reveal_strlit("enum ");
    lemma_trim_shortens(line);
}

proof fn lemma_chunk_sizes(lines: Seq<Seq<char>>, size: nat)
    ensures
        forall|k: int|
            0 <= k < chunk_lines(lines, size).full.len() ==> byte_len(
                #[trigger] chunk_lines(lines, size).full[k],
            ) >= size,
        chunk_lines(lines, size).full.len() > 0 ==> chunk_lines(lines, size).open.len() >= 4,
    decreases lines.len(),
{
    reveal_strlit("\n");
    if lines.len() > 0 {
        lemma_chunk_sizes(lines.drop_last(), size);
        if begins_item(lines.last()) {
            lemma_items_have_length(lines.last());
        }
    }
}

proof fn lemma_full_total(full: Seq<Seq<char>>, size: nat)
    requires
        forall|k: int| 0 <= k < full.len() ==> byte_len(#[trigger] full[k]) >= size,
    ensures
        byte_len(concatenated(full)) >= full.len() * size,
    decreases full.len(),
{
    if full.len() > 0 {
        let less = full.drop_last();
        assert forall|k: int| 0 <= k < less.len() implies byte_len(#[trigger] less[k]) >= size by {
            assert(less[k] == full[k]);
        }
        lemma_full_total(less, size);
        lemma_byte_len_adds(concatenated(less), full.last());
        assert(byte_len(full[full.len() - 1]) >= size);
        assert(full.len() * size == less.len() * size + size) by (nonlinear_arith)
            requires
                full.len() == less.len() + 1,
        ;
    } else {
        assert(0 * size == 0) by (nonlinear_arith);
    }
}

proof fn lemma_lines_total(s: Seq<char>)
    ensures
        byte_len(with_newlines(lines_of(s))) <= byte_len(s) + 1,
        s.len() == 0 || s.last() == '\n' ==> byte_len(with_newlines(lines_of(s))) <= byte_len(s),
    decreases s.len(),
{
    reveal_strlit("\n");
    lemma_first_from(s, seq!['\n'], 0);
    assert("\n"@ =~= seq!['\n']);
    assert(byte_len("\n"@) == 1) by {
        reveal_with_fuel(encode_utf8, 2);
    }
    match first_from(s, seq!['\n'], 0) {
        Some(k) => {
            assert(s.subrange(k, k + 1)[0] == seq!['\n'][0]);
            let line = s.take(k);
            let rest = s.skip(k + 1);
            let all = lines_of(s);
            if rest.len() > 0 {
                assert(rest.last() == s.last());
            }
            lemma_lines_total(rest);
            assert(all =~= seq![without_return(line)] + lines_of(rest));
            crate::quality::lemma_with_newlines_front(all);
            assert(all.skip(1) =~= lines_of(rest));
            let kept = without_return(line);
            assert(line =~= kept + line.skip(kept.len() as int));
            lemma_byte_len_adds(kept, line.skip(kept.len() as int));
            assert(s =~= line + "\n"@ + rest);
            lemma_byte_len_adds(line, "\n"@);
            lemma_byte_len_adds(line + "\n"@, rest);
            lemma_byte_len_adds(kept, "\n"@);
            lemma_byte_len_adds(kept + "\n"@, with_newlines(lines_of(rest)));
        },
        None => {
            if s.len() > 0 {
                if s.last() == '\n' {
                    lemma_newline_found(s, s.len() - 1);
                }
                let all = seq![s];
                crate::quality::lemma_with_newlines_front(all);
                assert(all.skip(1) =~= Seq::<Seq<char>>::empty());
                assert(with_newlines(all) =~= s + "\n"@);
                lemma_byte_len_adds(s, "\n"@);
            }
        },
    }
}

/// There are no more chunks than were asked for.
pub proof fn law_at_most_target_chunks(source: Seq<char>, target: nat)
    requires
        target > 0,
    ensures
        1 <= chunks_of(source, target).len() <= target,
{
    let len = byte_len(source);
    let size = chunk_size(len, target);
    let lines = lines_of(source);
    let c = chunk_lines(lines, size);
    lemma_chunk_sizes(lines, size);
    lemma_chunks_hold_lines(lines, size);
    lemma_full_total(c.full, size);
    lemma_byte_len_adds(concatenated(c.full), c.open);
    lemma_byte_len_at_least(c.open);
    lemma_lines_total(source);
    assert(size * target >= len) by (nonlinear_arith)
        requires
            target > 0,
            size >= len / target + if len % target == 0 {
                0nat
            } else {
                1nat
            },
    ;
    if c.full.len() >= target {
        assert(c.full.len() * size >= size * target) by (nonlinear_arith)
            requires
                c.full.len() >= target,
                size >= 0,
        ;
        assert(c.full.len() > 0);
        assert(false);
    }
}

/// Every chunk but the last has the size at which a chunk can end.
pub proof fn law_chunks_have_their_size(source: Seq<char>, target: nat, k: int)
    requires
        0 <= k < chunks_of(source, target).len() - 1,
    ensures
        byte_len(chunks_of(source, target)[k]) >= chunk_size(byte_len(source), target),
{
    lemma_chunk_sizes(lines_of(source), chunk_size(byte_len(source), target));
}

} // verus!
