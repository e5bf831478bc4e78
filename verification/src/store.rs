use vstd::prelude::*;

use crate::compress::compress;
use crate::errors::LoadError;
use crate::sample::Sample;

verus! {

/// The lines collected so far (`acc`), the line under construction (`cur`),
/// and the rest of the stream from position `i` on: each newline byte ends a
/// line, a trailing segment without a newline is a line of its own, and the
/// empty tail after a final newline is no line.
pub open spec fn lines_acc(s: Seq<u8>, i: int, cur: Seq<u8>, acc: Seq<Seq<u8>>) -> Seq<Seq<u8>>
    decreases s.len() - i,
{
    if i < 0 || i >= s.len() {
        if cur.len() > 0 {
            acc.push(cur)
        } else {
            acc
        }
    } else if s[i] == 10 {
        lines_acc(s, i + 1, Seq::empty(), acc.push(cur))
    } else {
        lines_acc(s, i + 1, cur.push(s[i]), acc)
    }
}

/// The lines of a byte stream.
pub open spec fn spec_lines(s: Seq<u8>) -> Seq<Seq<u8>> {
    lines_acc(s, 0, Seq::empty(), Seq::empty())
}

/// `b` is a decimal digit.
pub open spec fn is_digit(b: u8) -> bool {
    48 <= b <= 57
}

/// The value of a sequence of decimal digits.
pub open spec fn digits_val(s: Seq<u8>) -> int
    decreases s.len(),
{
    if s.len() == 0 {
        0
    } else {
        digits_val(s.drop_last()) * 10 + (s.last() - 48)
    }
}

pub open spec fn all_digits(s: Seq<u8>) -> bool {
    forall|i: int| 0 <= i < s.len() ==> is_digit(s[i])
}

/// The digits of a label field: one optional leading plus sign is allowed.
pub open spec fn strip_plus(s: Seq<u8>) -> Seq<u8> {
    if s.len() > 0 && s[0] == 43 {
        s.drop_first()
    } else {
        s
    }
}

/// How a label field parses as a small non-negative integer: after an
/// optional leading plus sign, one or more decimal digits whose value is at
/// most 255; anything else is rejected.
pub open spec fn spec_parse_u8(s: Seq<u8>) -> Option<u8> {
    let d = strip_plus(s);
    if d.len() > 0 && all_digits(d) && digits_val(d) <= 255 {
        Some(digits_val(d) as u8)
    } else {
        None
    }
}

/// The bytes of `s` before its first comma (all of `s` when it has none).
pub open spec fn before_comma(s: Seq<u8>) -> Seq<u8>
    decreases s.len(),
{
    if s.len() == 0 || s[0] == 44 {
        Seq::empty()
    } else {
        seq![s[0]] + before_comma(s.drop_first())
    }
}

/// How one data line yields a labeled text: the line splits at its first
/// comma into a label field and the text, and the label field must parse as
/// a small non-negative integer. A line without a comma, or with a label
/// that does not parse, yields nothing.
pub open spec fn spec_parse_line(line: Seq<u8>) -> Option<(u8, Seq<u8>)> {
    let label = before_comma(line);
    if label.len() == line.len() {
        None
    } else {
        match spec_parse_u8(label) {
            Some(v) => Some((v, line.skip(label.len() as int + 1))),
            None => None,
        }
    }
}

/// The outcome of ingesting the data lines from index `i` on, with `acc`
/// already committed: on the first line that yields nothing the whole load
/// stops, reporting that line's index and how many entries were committed
/// before it.
pub open spec fn load_acc(lines: Seq<Seq<u8>>, i: int, acc: Seq<(u8, Seq<u8>)>) -> Result<
    Seq<(u8, Seq<u8>)>,
    (int, int),
>
    decreases lines.len() - i,
{
    if i < 0 || i >= lines.len() {
        Ok(acc)
    } else {
        match spec_parse_line(lines[i]) {
            Some(e) => load_acc(lines, i + 1, acc.push(e)),
            None => Err((i, acc.len() as int)),
        }
    }
}

/// The labeled texts of a training stream: line 0 is a header and is
/// discarded, and every later line is ingested in order, fail-fast.
pub open spec fn spec_load(stream: Seq<u8>) -> Result<Seq<(u8, Seq<u8>)>, (int, int)> {
    load_acc(spec_lines(stream), 1, Seq::empty())
}

/// The number of entries among `s` whose label is `c`.
pub open spec fn count_code(s: Seq<(u8, Seq<u8>)>, c: u8) -> int
    decreases s.len(),
{
    if s.len() == 0 {
        0
    } else {
        count_code(s.drop_last(), c) + if s.last().0 == c {
            1int
        } else {
            0int
        }
    }
}

/// The labels and original texts of a sample sequence, in order.
pub open spec fn entries_of(samples: Seq<Sample>) -> Seq<(u8, Seq<u8>)> {
    Seq::new(samples.len(), |i: int| (samples[i].klass, samples[i].original@))
}

/// The frozen sample store: populated by one bulk load, read-only afterward.
pub struct Store {
    /// The labeled, pre-compressed training examples, in ingestion order.
    pub samples: Vec<Sample>,
    /// A per-code frequency histogram over the known codes `0..5`, kept for
    /// diagnostics; labels outside the known codes fall in no bucket.
    pub klass_freq: [usize; 5],
}

impl Store {
    /// Every sample carries the compression of exactly its own text.
    pub open spec fn wf(self) -> bool {
        forall|i: int| 0 <= i < self.samples@.len() ==> self.samples@[i].wf()
    }

    /// The labels and original texts of the samples, in store order.
    pub open spec fn entries(self) -> Seq<(u8, Seq<u8>)> {
        entries_of(self.samples@)
    }
}

/// Splits a byte stream into its lines.
pub fn split_lines(stream: &Vec<u8>) -> (r: Vec<Vec<u8>>)
    ensures
        r@.map_values(|l: Vec<u8>| l@) == spec_lines(stream@),
{
    let mut acc: Vec<Vec<u8>> = Vec::new();
    let mut cur: Vec<u8> = Vec::new();
    let mut i: usize = 0;
    proof {
        assert(acc@.map_values(|l: Vec<u8>| l@) =~= Seq::<Seq<u8>>::empty());
    }
    while i < stream.len()
        invariant
            i <= stream@.len(),
            lines_acc(stream@, i as int, cur@, acc@.map_values(|l: Vec<u8>| l@)) == spec_lines(
                stream@,
            ),
        decreases stream@.len() - i,
    {
        let b = stream[i];
        if b == 10 {
            let ghost prev_acc = acc@.map_values(|l: Vec<u8>| l@);
            let ghost prev_cur = cur@;
            acc.push(cur);
            cur = Vec::new();
            proof {
                assert(acc@.map_values(|l: Vec<u8>| l@) =~= prev_acc.push(prev_cur));
            }
        } else {
            cur.push(b);
        }
        i += 1;
    }
    if cur.len() > 0 {
        let ghost prev = acc@.map_values(|l: Vec<u8>| l@);
        acc.push(cur);
        proof {
            assert(acc@.map_values(|l: Vec<u8>| l@) =~= prev.push(cur@));
        }
    }
    acc
}

proof fn lemma_before_comma_at(s: Seq<u8>, j: int)
    requires
        0 <= j <= s.len(),
        forall|t: int| 0 <= t < j ==> s[t] != 44,
        j < s.len() ==> s[j] == 44,
    ensures
        before_comma(s) == s.take(j),
    decreases s.len(),
{
    if s.len() == 0 || s[0] == 44 {
        assert(j == 0);
        assert(before_comma(s) =~= s.take(0));
    } else {
        assert(j >= 1);
        lemma_before_comma_at(s.drop_first(), j - 1);
        assert(before_comma(s) =~= s.take(j));
    }
}

fn find_comma(line: &Vec<u8>) -> (j: usize)
    ensures
        j <= line@.len(),
        forall|t: int| 0 <= t < j ==> line@[t] != 44,
        j < line@.len() ==> line@[j as int] == 44,
{
    let mut j: usize = 0;
    while j < line.len()
        invariant
            j <= line@.len(),
            forall|t: int| 0 <= t < j ==> line@[t] != 44,
        decreases line@.len() - j,
    {
        if line[j] == 44 {
            return j;
        }
        j += 1;
    }
    j
}

/// Parses a label field as a small non-negative integer, the way the
/// training data requires it: an optional leading plus sign, then decimal
/// digits whose value fits in eight bits.
pub fn parse_u8(field: &Vec<u8>) -> (r: Option<u8>)
    ensures
        r == spec_parse_u8(field@),
{
    let ghost d = strip_plus(field@);
    let start: usize = if field.len() > 0 && *vstd::slice::slice_index_get(
        field.as_slice(),
        0,
    ) == 43 {
        1
    } else {
        0
    };
    proof {
        assert(d =~= field@.subrange(start as int, field@.len() as int));
    }
    if field.len() == start {
        return None;
    }
    let mut val: u32 = 0;
    let mut i: usize = start;
    while i < field.len()
        invariant
            start <= i <= field@.len(),
            d == field@.subrange(start as int, field@.len() as int),
            d == strip_plus(field@),
            start <= field@.len(),
            forall|t: int| start <= t < i ==> is_digit(field@[t]),
            val <= 2559,
            val <= 255 ==> val == digits_val(field@.subrange(start as int, i as int)),
            val > 255 ==> digits_val(field@.subrange(start as int, i as int)) > 255,
        decreases field@.len() - i,
    {
        let b = field[i];
        if b < 48 || b > 57 {
            proof {
                assert(d[i - start] == field@[i as int]);
                assert(!all_digits(d));
            }
            return None;
        }
        proof {
            assert(field@.subrange(start as int, i + 1).drop_last() =~= field@.subrange(
                start as int,
                i as int,
            ));
            assert(field@.subrange(start as int, i + 1).last() == field@[i as int]);
        }
        if val <= 255 {
            val = val * 10 + (b - 48) as u32;
        }
        i += 1;
    }
    proof {
        assert(d =~= field@.subrange(start as int, field@.len() as int));
        assert(all_digits(d));
    }
    if val <= 255 {
        Some(val as u8)
    } else {
        None
    }
}

/// Splits one data line at its first comma and parses the label field;
/// yields the label and the text, or nothing when the line has no comma or
/// the label does not parse.
pub fn parse_line(line: &Vec<u8>) -> (r: Option<(u8, Vec<u8>)>)
    ensures
        r matches Some(e) ==> spec_parse_line(line@) == Some((e.0, e.1@)),
        r is None <==> spec_parse_line(line@) is None,
{
    let j = find_comma(line);
    proof {
        lemma_before_comma_at(line@, j as int);
    }
    if j == line.len() {
        return None;
    }
    let label_bytes = vstd::slice::slice_to_vec(
        vstd::slice::slice_subrange(line.as_slice(), 0, j),
    );
    proof {
        assert(label_bytes@ =~= before_comma(line@));
    }
    match parse_u8(&label_bytes) {
        Some(v) => {
            let text = vstd::slice::slice_to_vec(
                vstd::slice::slice_subrange(line.as_slice(), j + 1, line.len()),
            );
            proof {
                assert(text@ =~= line@.skip(j + 1));
            }
            Some((v, text))
        },
        None => None,
    }
}

/// Bulk-loads a training stream into a fresh store: line 0 is a header and
/// is discarded; every later line is split at its first comma, its label
/// parsed, its text compressed once, and a sample appended. The load is
/// fail-fast: the first line that does not parse aborts it with
/// `MalformedLine`, a compressor failure aborts it with `Compression`, and
/// in both cases the error reports the offending line index and how many
/// samples were committed before it; no partial store is returned.
pub fn load_train_data(stream: &Vec<u8>) -> (r: Result<Store, LoadError>)
    ensures
        r is Ok <==> spec_load(stream@) is Ok,
        r matches Ok(store) ==> spec_load(stream@) == Ok::<_, (int, int)>(store.entries())
            && store.wf() && forall|c: int|
            0 <= c < 5 ==> store.klass_freq@[c] == count_code(store.entries(), c as u8),
        spec_load(stream@) matches Err(e) ==> r == Err::<Store, LoadError>(
            LoadError::MalformedLine { line: e.0 as usize, committed: e.1 as usize },
        ),
{
    let lines = split_lines(stream);
    let ghost glines = spec_lines(stream@);
    if lines.len() <= 1 {
        let store = Store { samples: Vec::new(), klass_freq: [0, 0, 0, 0, 0] };
        proof {
            assert(store.entries() =~= Seq::<(u8, Seq<u8>)>::empty());
            assert(forall|c: int|
                0 <= c < 5 ==> store.klass_freq@[c] == count_code(store.entries(), c as u8));
        }
        return Ok(store);
    }
    let mut samples: Vec<Sample> = Vec::new();
    let mut f0: usize = 0;
    let mut f1: usize = 0;
    let mut f2: usize = 0;
    let mut f3: usize = 0;
    let mut f4: usize = 0;
    let mut i: usize = 1;
    proof {
        assert(entries_of(samples@) =~= Seq::<(u8, Seq<u8>)>::empty());
    }
    while i < lines.len()
        invariant
            1 <= i <= lines@.len(),
            lines@.map_values(|l: Vec<u8>| l@) == glines,
            glines == spec_lines(stream@),
            load_acc(glines, i as int, entries_of(samples@)) == spec_load(stream@),
            forall|t: int| 0 <= t < samples@.len() ==> samples@[t].wf(),
            samples@.len() < i,
            f0 == count_code(entries_of(samples@), 0u8),
            f1 == count_code(entries_of(samples@), 1u8),
            f2 == count_code(entries_of(samples@), 2u8),
            f3 == count_code(entries_of(samples@), 3u8),
            f4 == count_code(entries_of(samples@), 4u8),
            f0 <= samples@.len(),
            f1 <= samples@.len(),
            f2 <= samples@.len(),
            f3 <= samples@.len(),
            f4 <= samples@.len(),
        decreases lines@.len() - i,
    {
        let ghost prev_entries = entries_of(samples@);
        let line = &lines[i];
        proof {
            assert(lines@.map_values(|l: Vec<u8>| l@)[i as int] == line@);
        }
        match parse_line(line) {
            Some((v, text)) => {
                let ghost gtext = text@;
                match compress(&text) {
                    Ok(ctext) => {
                        if v == 0 {
                            f0 += 1;
                        } else if v == 1 {
                            f1 += 1;
                        } else if v == 2 {
                            f2 += 1;
                        } else if v == 3 {
                            f3 += 1;
                        } else if v == 4 {
                            f4 += 1;
                        }
                        samples.push(Sample::new(v, ctext, text));
                        proof {
                            assert(entries_of(samples@) =~= prev_entries.push((v, gtext)));
                            assert(entries_of(samples@).drop_last() =~= prev_entries);
                        }
                    },
                    Err(_) => {
                        return Err(
                            LoadError::Compression { line: i, committed: samples.len() },
                        );
                    },
                }
            },
            None => {
                proof {
                    assert(spec_parse_line(glines[i as int]) is None);
                }
                return Err(LoadError::MalformedLine { line: i, committed: samples.len() });
            },
        }
        i += 1;
    }
    let store = Store { samples, klass_freq: [f0, f1, f2, f3, f4] };
    Ok(store)
}

} // verus!
