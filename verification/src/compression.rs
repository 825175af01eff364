//! The two compressions used by GAMEMAPS planes: Carmack (near/far back-references)
//! and RLEW (run-length encoding of 16-bit words).

use vstd::prelude::*;
use crate::bytes::{fits, read_u16_from_slice, u16_at};
use crate::data::{DataError, FormatError};

verus! {

/// High byte of a Carmack word that starts a near back-reference.
pub const NEAR_TAG: u8 = 0xA7;

/// High byte of a Carmack word that starts a far back-reference.
pub const FAR_TAG: u8 = 0xA8;

/// `out` extended by `count` words, each copied from `start` words into the growing
/// sequence; the source may overlap what is being written.
pub open spec fn copy_run(out: Seq<u16>, start: int, count: nat) -> Seq<u16>
    decreases count,
{
    if count == 0 {
        out
    } else {
        copy_run(out.push(out[start]), start + 1, (count - 1) as nat)
    }
}

/// Carmack decoding of `input` from byte `i` on, with `out` already produced, until
/// at least `target` words exist; the result is cut to `target` words.
pub open spec fn carmack_from(input: Seq<u8>, target: nat, i: int, out: Seq<u16>) -> Result<
    Seq<u16>,
    FormatError,
>
    decreases input.len() - i,
{
    if out.len() >= target {
        Ok(out.take(target as int))
    } else if !fits(input, i, 2) {
        Err(FormatError::U16OutOfBounds)
    } else {
        let ch = u16_at(input, i);
        let j = i + 2;
        let high = ch / 256;
        let count = (ch % 256) as nat;
        if high == NEAR_TAG {
            if j >= input.len() {
                if count == 0 {
                    Err(FormatError::NearEscapeMissing)
                } else {
                    Err(FormatError::NearOffsetMissing)
                }
            } else if count == 0 {
                carmack_from(input, target, j + 1, out.push((ch - ch % 256 + input[j]) as u16))
            } else {
                let back = input[j] as int;
                if back == 0 || back > out.len() {
                    Err(FormatError::NearBackReference)
                } else {
                    carmack_from(input, target, j + 1, copy_run(out, out.len() - back, count))
                }
            }
        } else if high == FAR_TAG {
            if count == 0 {
                if j >= input.len() {
                    Err(FormatError::FarEscapeMissing)
                } else {
                    carmack_from(
                        input,
                        target,
                        j + 1,
                        out.push((ch - ch % 256 + input[j]) as u16),
                    )
                }
            } else if !fits(input, j, 2) {
                Err(FormatError::U16OutOfBounds)
            } else {
                let offset = u16_at(input, j) as int;
                if offset >= out.len() {
                    Err(FormatError::FarOffsetOutOfRange)
                } else {
                    carmack_from(input, target, j + 2, copy_run(out, offset, count))
                }
            }
        } else {
            carmack_from(input, target, j, out.push(ch))
        }
    }
}

/// The first `expanded_words` words that Carmack decoding of `input` produces.
pub open spec fn carmack_decoded(input: Seq<u8>, expanded_words: nat) -> Result<
    Seq<u16>,
    FormatError,
> {
    carmack_from(input, expanded_words, 0, Seq::empty())
}

/// RLEW decoding of `source` from word `i` on, with `out` already produced, until at
/// least `target` words exist; the result is cut to `target` words.
pub open spec fn rlew_from(source: Seq<u16>, tag: u16, target: nat, i: int, out: Seq<u16>) -> Result<
    Seq<u16>,
    FormatError,
>
    decreases source.len() - i,
{
    if out.len() >= target {
        Ok(out.take(target as int))
    } else if i < 0 || i >= source.len() {
        Err(FormatError::RlewInputEnded)
    } else if source[i] != tag {
        rlew_from(source, tag, target, i + 1, out.push(source[i]))
    } else if i + 1 >= source.len() {
        Err(FormatError::RlewCountMissing)
    } else if i + 2 >= source.len() {
        Err(FormatError::RlewValueMissing)
    } else {
        rlew_from(
            source,
            tag,
            target,
            i + 3,
            out + Seq::new(source[i + 1] as nat, |k: int| source[i + 2]),
        )
    }
}

/// The first `expanded_words` words that RLEW decoding of `source` with marker `tag` produces.
pub open spec fn rlew_decoded(source: Seq<u16>, tag: u16, expanded_words: nat) -> Result<
    Seq<u16>,
    FormatError,
> {
    rlew_from(source, tag, expanded_words, 0, Seq::empty())
}

/// Successful Carmack decoding produces exactly the requested number of words.
pub proof fn lemma_carmack_length(input: Seq<u8>, target: nat, i: int, out: Seq<u16>)
    ensures
        carmack_from(input, target, i, out) matches Ok(words) ==> words.len() == target,
    decreases input.len() - i,
{
    if out.len() < target && fits(input, i, 2) {
        let ch = u16_at(input, i);
        let j = i + 2;
        let count = (ch % 256) as nat;
        if ch / 256 == NEAR_TAG {
            if j < input.len() {
                if count == 0 {
                    lemma_carmack_length(
                        input,
                        target,
                        j + 1,
                        out.push((ch - ch % 256 + input[j]) as u16),
                    );
                } else {
                    let back = input[j] as int;
                    if !(back == 0 || back > out.len()) {
                        lemma_carmack_length(
                            input,
                            target,
                            j + 1,
                            copy_run(out, out.len() - back, count),
                        );
                    }
                }
            }
        } else if ch / 256 == FAR_TAG {
            if count == 0 {
                if j < input.len() {
                    lemma_carmack_length(
                        input,
                        target,
                        j + 1,
                        out.push((ch - ch % 256 + input[j]) as u16),
                    );
                }
            } else if fits(input, j, 2) {
                let offset = u16_at(input, j) as int;
                if offset < out.len() {
                    lemma_carmack_length(input, target, j + 2, copy_run(out, offset, count));
                }
            }
        } else {
            lemma_carmack_length(input, target, j, out.push(ch));
        }
    }
}

/// Successful RLEW decoding produces exactly the requested number of words.
pub proof fn lemma_rlew_length(source: Seq<u16>, tag: u16, target: nat, i: int, out: Seq<u16>)
    ensures
        rlew_from(source, tag, target, i, out) matches Ok(words) ==> words.len() == target,
    decreases source.len() - i,
{
    if out.len() >= target {
    } else if i < 0 || i >= source.len() {
    } else if source[i] != tag {
        lemma_rlew_length(source, tag, target, i + 1, out.push(source[i]));
    } else if i + 1 >= source.len() {
    } else if i + 2 >= source.len() {
    } else {
        lemma_rlew_length(
            source,
            tag,
            target,
            i + 3,
            out + Seq::new(source[i + 1] as nat, |k: int| source[i + 2]),
        );
    }
}

/// A back-reference copy appends `count` words, each equal to the word `start - out.len()`
/// places before it; what was already there is left as it was.
pub proof fn lemma_copy_run_copies(out: Seq<u16>, start: int, count: nat)
    requires
        0 <= start < out.len(),
    ensures
        copy_run(out, start, count).len() == out.len() + count,
        copy_run(out, start, count).take(out.len() as int) == out,
        forall|k: int|
            0 <= k < count ==> #[trigger] copy_run(out, start, count)[out.len() + k] == copy_run(
                out,
                start,
                count,
            )[start + k],
    decreases count,
{
    let r = copy_run(out, start, count);
    if count == 0 {
        assert(r.take(out.len() as int) =~= out);
    } else {
        let grown = out.push(out[start]);
        lemma_copy_run_copies(grown, start + 1, (count - 1) as nat);
        assert(r == copy_run(grown, start + 1, (count - 1) as nat));
        assert(r.take(grown.len() as int) == grown);
        assert(r.take(out.len() as int) =~= out) by {
            assert forall|k: int| 0 <= k < out.len() implies r[k] == out[k] by {
                assert(r.take(grown.len() as int)[k] == grown[k]);
            }
        }
        assert forall|k: int| 0 <= k < count implies #[trigger] r[out.len() + k] == r[start + k] by {
            assert(r.take(grown.len() as int)[start] == grown[start]);
            if k == 0 {
                assert(r.take(grown.len() as int)[out.len() as int] == grown[out.len() as int]);
            } else {
                assert(r[grown.len() + (k - 1)] == r[start + 1 + (k - 1)]);
            }
        }
    }
}

/// One unit of a Carmack-compressed stream, as an encoder writes it.
pub enum CarmackToken {
    /// A word whose high byte is neither tag, stored as itself (two bytes).
    Word(u16),
    /// A word whose high byte is a tag, stored as a zero count, the tag and the low
    /// byte (three bytes).
    Escaped(u16),
    /// A copy of `count` words starting `back` words before the end of the output: the
    /// count, the near tag and `back` (three bytes).
    Near { count: u8, back: u8 },
    /// A copy of `count` words starting at word `offset` of the output: the count, the
    /// far tag and the offset, little-endian (four bytes).
    Far { count: u8, offset: u16 },
}

/// The bytes an encoder writes for one token.
pub open spec fn token_bytes(token: CarmackToken) -> Seq<u8> {
    match token {
        CarmackToken::Word(w) => seq![(w % 256) as u8, (w / 256) as u8],
        CarmackToken::Escaped(w) => seq![0u8, (w / 256) as u8, (w % 256) as u8],
        CarmackToken::Near { count, back } => seq![count, NEAR_TAG, back],
        CarmackToken::Far { count, offset } => seq![
            count,
            FAR_TAG,
            (offset % 256) as u8,
            (offset / 256) as u8,
        ],
    }
}

/// The bytes of a token stream: each token's bytes, one after the other.
pub open spec fn stream_bytes(tokens: Seq<CarmackToken>) -> Seq<u8>
    decreases tokens.len(),
{
    if tokens.len() == 0 {
        Seq::empty()
    } else {
        token_bytes(tokens[0]) + stream_bytes(tokens.drop_first())
    }
}

/// The words one token stands for, appended to the words `out` already produced.
pub open spec fn token_words(out: Seq<u16>, token: CarmackToken) -> Seq<u16> {
    match token {
        CarmackToken::Word(w) => out.push(w),
        CarmackToken::Escaped(w) => out.push(w),
        CarmackToken::Near { count, back } => copy_run(out, out.len() - back, count as nat),
        CarmackToken::Far { count, offset } => copy_run(out, offset as int, count as nat),
    }
}

/// The words a token stream stands for, after the words `out` already produced.
pub open spec fn stream_words(out: Seq<u16>, tokens: Seq<CarmackToken>) -> Seq<u16>
    decreases tokens.len(),
{
    if tokens.len() == 0 {
        out
    } else {
        stream_words(token_words(out, tokens[0]), tokens.drop_first())
    }
}

/// Whether an encoder may write `token` after `out_len` words: plain words avoid the
/// tags, escaped words carry one, and a copy is non-empty and reads words that exist.
pub open spec fn token_valid(out_len: nat, token: CarmackToken) -> bool {
    match token {
        CarmackToken::Word(w) => w / 256 != NEAR_TAG && w / 256 != FAR_TAG,
        CarmackToken::Escaped(w) => w / 256 == NEAR_TAG || w / 256 == FAR_TAG,
        CarmackToken::Near { count, back } => count > 0 && 0 < back <= out_len,
        CarmackToken::Far { count, offset } => count > 0 && offset < out_len,
    }
}

/// Whether every token of the stream is valid where it stands, after `out`.
pub open spec fn stream_valid(out: Seq<u16>, tokens: Seq<CarmackToken>) -> bool
    decreases tokens.len(),
{
    tokens.len() == 0 || (token_valid(out.len(), tokens[0]) && stream_valid(
        token_words(out, tokens[0]),
        tokens.drop_first(),
    ))
}

/// A valid token adds at least one word and keeps the words before it.
proof fn lemma_token_grows(out: Seq<u16>, token: CarmackToken)
    requires
        token_valid(out.len(), token),
    ensures
        token_words(out, token).len() > out.len(),
{
    match token {
        CarmackToken::Near { count, back } => {
            lemma_copy_run_copies(out, out.len() - back, count as nat);
        },
        CarmackToken::Far { count, offset } => {
            lemma_copy_run_copies(out, offset as int, count as nat);
        },
        _ => {},
    }
}

/// Decoding a valid token stream never shrinks the output.
proof fn lemma_stream_grows(out: Seq<u16>, tokens: Seq<CarmackToken>)
    requires
        stream_valid(out, tokens),
    ensures
        stream_words(out, tokens).len() >= out.len(),
    decreases tokens.len(),
{
    if tokens.len() > 0 {
        lemma_token_grows(out, tokens[0]);
        lemma_stream_grows(token_words(out, tokens[0]), tokens.drop_first());
    }
}

/// Carmack decoding follows the token stream: wherever the bytes of a valid stream
/// stand in the input, decoding from their start reaches their end with exactly the
/// stream's words added, each near token taking three bytes, each far token four,
/// each plain word two; so decoding one stream and then another is decoding both.
pub proof fn lemma_carmack_follows_tokens(
    input: Seq<u8>,
    target: nat,
    i: int,
    out: Seq<u16>,
    tokens: Seq<CarmackToken>,
)
    requires
        stream_valid(out, tokens),
        0 <= i,
        i + stream_bytes(tokens).len() <= input.len(),
        input.subrange(i, i + stream_bytes(tokens).len()) == stream_bytes(tokens),
        stream_words(out, tokens).len() <= target,
    ensures
        carmack_from(input, target, i, out) == carmack_from(
            input,
            target,
            i + stream_bytes(tokens).len(),
            stream_words(out, tokens),
        ),
    decreases tokens.len(),
{
    if tokens.len() > 0 {
        let t = tokens[0];
        let rest = tokens.drop_first();
        let b = token_bytes(t);
        let rb = stream_bytes(rest);
        let next = token_words(out, t);
        assert(stream_bytes(tokens) == b + rb);
        lemma_token_grows(out, t);
        lemma_stream_grows(next, rest);
        assert(out.len() < target);
        assert forall|k: int| 0 <= k < b.len() implies input[i + k] == b[k] by {
            assert(input.subrange(i, i + stream_bytes(tokens).len())[k] == (b + rb)[k]);
        }
        assert(input.subrange(i + b.len(), i + b.len() + rb.len()) =~= rb) by {
            assert forall|k: int| 0 <= k < rb.len() implies input[i + b.len() + k] == rb[k] by {
                assert(input.subrange(i, i + stream_bytes(tokens).len())[b.len() + k] == (b
                    + rb)[b.len() + k]);
            }
        }
        lemma_carmack_follows_tokens(input, target, i + b.len(), next, rest);
        let ch = u16_at(input, i);
        match t {
            CarmackToken::Word(w) => {
                assert(ch == w);
            },
            CarmackToken::Escaped(w) => {
                assert(ch == 256 * (w / 256));
                assert(ch / 256 == w / 256);
                assert(ch % 256 == 0);
                assert(input[i + 2] == w % 256);
                assert((ch - ch % 256 + input[i + 2]) as u16 == w);
            },
            CarmackToken::Near { count, back } => {
                assert(ch == count + 256 * NEAR_TAG);
                assert(ch / 256 == NEAR_TAG);
                assert(ch % 256 == count);
                assert(input[i + 2] == back);
            },
            CarmackToken::Far { count, offset } => {
                assert(ch == count + 256 * FAR_TAG);
                assert(ch / 256 == FAR_TAG);
                assert(ch % 256 == count);
                assert(u16_at(input, i + 2) == offset);
            },
        }
    }
}

/// Decoding what an encoder wrote gives back the words it encoded.
pub proof fn lemma_carmack_round_trip(tokens: Seq<CarmackToken>)
    requires
        stream_valid(Seq::empty(), tokens),
    ensures
        carmack_decoded(
            stream_bytes(tokens),
            stream_words(Seq::empty(), tokens).len(),
        ) == Ok::<Seq<u16>, FormatError>(stream_words(Seq::empty(), tokens)),
{
    let bytes = stream_bytes(tokens);
    let words = stream_words(Seq::<u16>::empty(), tokens);
    assert(bytes.subrange(0, bytes.len() as int) =~= bytes);
    lemma_carmack_follows_tokens(bytes, words.len(), 0, Seq::empty(), tokens);
    assert(words.take(words.len() as int) =~= words);
}

/// Decoding rejects what an encoder never writes: after a valid stream, a near
/// reference reaching back zero words or before the first word, a far reference to a
/// word not yet produced, or a lone trailing byte, each with its own error.
pub proof fn lemma_carmack_rejects(tokens: Seq<CarmackToken>, count: u8, reference: u16)
    requires
        stream_valid(Seq::empty(), tokens),
        count > 0,
    ensures
        ({
            let words = stream_words(Seq::empty(), tokens);
            let target = words.len() + 1;
            &&& (reference < 256 && (reference == 0 || reference > words.len())) ==> carmack_decoded(
                stream_bytes(tokens) + seq![count, NEAR_TAG, reference as u8],
                target,
            ) == Err::<Seq<u16>, FormatError>(FormatError::NearBackReference)
            &&& reference >= words.len() ==> carmack_decoded(
                stream_bytes(tokens) + seq![
                    count,
                    FAR_TAG,
                    (reference % 256) as u8,
                    (reference / 256) as u8,
                ],
                target,
            ) == Err::<Seq<u16>, FormatError>(FormatError::FarOffsetOutOfRange)
            &&& carmack_decoded(stream_bytes(tokens) + seq![count], target) == Err::<
                Seq<u16>,
                FormatError,
            >(FormatError::U16OutOfBounds)
        }),
{
    let words = stream_words(Seq::<u16>::empty(), tokens);
    let target = words.len() + 1;
    let sb = stream_bytes(tokens);
    let near = sb + seq![count, NEAR_TAG, reference as u8];
    let far = sb + seq![count, FAR_TAG, (reference % 256) as u8, (reference / 256) as u8];
    let short = sb + seq![count];
    assert(near.subrange(0, sb.len() as int) =~= sb);
    assert(far.subrange(0, sb.len() as int) =~= sb);
    assert(short.subrange(0, sb.len() as int) =~= sb);
    lemma_carmack_follows_tokens(near, target, 0, Seq::empty(), tokens);
    lemma_carmack_follows_tokens(far, target, 0, Seq::empty(), tokens);
    lemma_carmack_follows_tokens(short, target, 0, Seq::empty(), tokens);
    let i = sb.len() as int;
    assert(near[i] == count && near[i + 1] == NEAR_TAG && near[i + 2] == reference as u8);
    assert(u16_at(near, i) == count + 256 * NEAR_TAG);
    assert(far[i] == count && far[i + 1] == FAR_TAG);
    assert(u16_at(far, i) == count + 256 * FAR_TAG);
    assert(u16_at(far, i + 2) == reference);
    assert(!fits(short, i, 2));
}

/// Decoding only ever appends: the words already produced stay in front of the result.
pub proof fn lemma_carmack_extends(input: Seq<u8>, target: nat, i: int, out: Seq<u16>)
    ensures
        out.len() <= target ==> (carmack_from(input, target, i, out) matches Ok(words) ==> words.take(
            out.len() as int,
        ) == out),
    decreases input.len() - i,
{
    if out.len() < target && fits(input, i, 2) {
        let ch = u16_at(input, i);
        let j = i + 2;
        let count = (ch % 256) as nat;
        let mut next = out;
        let mut k = i;
        let mut step = false;
        if ch / 256 == NEAR_TAG {
            if j < input.len() {
                if count == 0 {
                    next = out.push((ch - ch % 256 + input[j]) as u16);
                    k = j + 1;
                    step = true;
                } else {
                    let back = input[j] as int;
                    if !(back == 0 || back > out.len()) {
                        lemma_copy_run_copies(out, out.len() - back, count);
                        next = copy_run(out, out.len() - back, count);
                        k = j + 1;
                        step = true;
                    }
                }
            }
        } else if ch / 256 == FAR_TAG {
            if count == 0 {
                if j < input.len() {
                    next = out.push((ch - ch % 256 + input[j]) as u16);
                    k = j + 1;
                    step = true;
                }
            } else if fits(input, j, 2) {
                let offset = u16_at(input, j) as int;
                if offset < out.len() {
                    lemma_copy_run_copies(out, offset, count);
                    next = copy_run(out, offset, count);
                    k = j + 2;
                    step = true;
                }
            }
        } else {
            next = out.push(ch);
            k = j;
            step = true;
        }
        if step {
            assert(carmack_from(input, target, i, out) == carmack_from(input, target, k, next));
            assert(next.take(out.len() as int) =~= out);
            lemma_carmack_extends(input, target, k, next);
            lemma_carmack_length(input, target, k, next);
            if let Ok(words) = carmack_from(input, target, k, next) {
                if next.len() <= target {
                    assert(next.len() >= out.len());
                    assert(words.take(next.len() as int) == next);
                    assert forall|m: int| 0 <= m < out.len() implies words[m] == next[m] by {
                        assert(words.take(next.len() as int)[m] == next[m]);
                    }
                    assert(words.take(out.len() as int) =~= next.take(out.len() as int));
                } else {
                    assert(words == next.take(target as int));
                    assert(words.take(out.len() as int) =~= next.take(out.len() as int));
                }
            }
        }
    }
}

/// Asking for fewer words gives a prefix of what a longer successful decoding gives.
pub proof fn lemma_carmack_prefix(input: Seq<u8>, shorter: nat, longer: nat, i: int, out: Seq<u16>)
    requires
        shorter <= longer,
    ensures
        carmack_from(input, longer, i, out) matches Ok(words) ==> carmack_from(
            input,
            shorter,
            i,
            out,
        ) == Ok::<Seq<u16>, FormatError>(words.take(shorter as int)),
    decreases input.len() - i,
{
    if let Ok(words) = carmack_from(input, longer, i, out) {
        if out.len() >= shorter {
            lemma_carmack_length(input, longer, i, out);
            if out.len() >= longer {
                assert(words.take(shorter as int) =~= out.take(shorter as int));
            } else {
                lemma_carmack_extends(input, longer, i, out);
                assert(words.take(shorter as int) =~= out.take(shorter as int)) by {
                    assert forall|k: int| 0 <= k < shorter implies words[k] == out[k] by {
                        assert(words.take(out.len() as int)[k] == out[k]);
                    }
                }
            }
        } else if fits(input, i, 2) {
            let ch = u16_at(input, i);
            let j = i + 2;
            let count = (ch % 256) as nat;
            if ch / 256 == NEAR_TAG {
                if j < input.len() {
                    if count == 0 {
                        lemma_carmack_prefix(
                            input,
                            shorter,
                            longer,
                            j + 1,
                            out.push((ch - ch % 256 + input[j]) as u16),
                        );
                    } else {
                        let back = input[j] as int;
                        if !(back == 0 || back > out.len()) {
                            lemma_carmack_prefix(
                                input,
                                shorter,
                                longer,
                                j + 1,
                                copy_run(out, out.len() - back, count),
                            );
                        }
                    }
                }
            } else if ch / 256 == FAR_TAG {
                if count == 0 {
                    if j < input.len() {
                        lemma_carmack_prefix(
                            input,
                            shorter,
                            longer,
                            j + 1,
                            out.push((ch - ch % 256 + input[j]) as u16),
                        );
                    }
                } else if fits(input, j, 2) {
                    let offset = u16_at(input, j) as int;
                    if offset < out.len() {
                        lemma_carmack_prefix(
                            input,
                            shorter,
                            longer,
                            j + 2,
                            copy_run(out, offset, count),
                        );
                    }
                }
            } else {
                lemma_carmack_prefix(input, shorter, longer, j, out.push(ch));
            }
        }
    }
}

/// One unit of an RLEW-compressed stream, as an encoder writes it.
pub enum RlewToken {
    /// A word other than the marker, stored as itself.
    Literal(u16),
    /// `count` copies of `value`, stored as the marker, the count and the value.
    Run { count: u16, value: u16 },
}

/// The words an encoder with marker `tag` writes for a token stream.
pub open spec fn rlew_stream_source(tag: u16, tokens: Seq<RlewToken>) -> Seq<u16>
    decreases tokens.len(),
{
    if tokens.len() == 0 {
        Seq::empty()
    } else {
        let head = match tokens[0] {
            RlewToken::Literal(w) => seq![w],
            RlewToken::Run { count, value } => seq![tag, count, value],
        };
        head + rlew_stream_source(tag, tokens.drop_first())
    }
}

/// The words a token stream stands for.
pub open spec fn rlew_stream_words(tokens: Seq<RlewToken>) -> Seq<u16>
    decreases tokens.len(),
{
    if tokens.len() == 0 {
        Seq::empty()
    } else {
        let head = match tokens[0] {
            RlewToken::Literal(w) => seq![w],
            RlewToken::Run { count, value } => Seq::new(count as nat, |k: int| value),
        };
        head + rlew_stream_words(tokens.drop_first())
    }
}

/// Whether an encoder with marker `tag` may write every token: literals are not the
/// marker, and runs are not empty.
pub open spec fn rlew_stream_valid(tag: u16, tokens: Seq<RlewToken>) -> bool {
    forall|k: int|
        0 <= k < tokens.len() ==> match #[trigger] tokens[k] {
            RlewToken::Literal(w) => w != tag,
            RlewToken::Run { count, value } => count > 0,
        }
}

/// RLEW decoding follows the token stream: wherever the words of a valid stream stand
/// in the source, decoding from their start reaches their end with exactly the
/// stream's words added.
pub proof fn lemma_rlew_follows_tokens(
    source: Seq<u16>,
    tag: u16,
    target: nat,
    i: int,
    out: Seq<u16>,
    tokens: Seq<RlewToken>,
)
    requires
        rlew_stream_valid(tag, tokens),
        0 <= i,
        i + rlew_stream_source(tag, tokens).len() <= source.len(),
        source.subrange(i, i + rlew_stream_source(tag, tokens).len()) == rlew_stream_source(
            tag,
            tokens,
        ),
        out.len() + rlew_stream_words(tokens).len() <= target,
    ensures
        rlew_from(source, tag, target, i, out) == rlew_from(
            source,
            tag,
            target,
            i + rlew_stream_source(tag, tokens).len(),
            out + rlew_stream_words(tokens),
        ),
    decreases tokens.len(),
{
    if tokens.len() == 0 {
        assert(out + rlew_stream_words(tokens) =~= out);
    } else {
        let t = tokens[0];
        let rest = tokens.drop_first();
        let rs = rlew_stream_source(tag, rest);
        let rw = rlew_stream_words(rest);
        let hs: Seq<u16> = match t {
            RlewToken::Literal(w) => seq![w],
            RlewToken::Run { count, value } => seq![tag, count, value],
        };
        let hw: Seq<u16> = match t {
            RlewToken::Literal(w) => seq![w],
            RlewToken::Run { count, value } => Seq::new(count as nat, |k: int| value),
        };
        let whole = rlew_stream_source(tag, tokens);
        assert(whole == hs + rs);
        assert(rlew_stream_words(tokens) == hw + rw);
        assert(rlew_stream_valid(tag, rest)) by {
            assert forall|k: int| 0 <= k < rest.len() implies match #[trigger] rest[k] {
                RlewToken::Literal(w) => w != tag,
                RlewToken::Run { count, value } => count > 0,
            } by {
                assert(rest[k] == tokens[k + 1]);
            }
        }
        assert(match tokens[0] {
            RlewToken::Literal(w) => w != tag,
            RlewToken::Run { count, value } => count > 0,
        });
        assert forall|k: int| 0 <= k < hs.len() implies source[i + k] == hs[k] by {
            assert(source.subrange(i, i + whole.len())[k] == (hs + rs)[k]);
        }
        assert(source.subrange(i + hs.len(), i + hs.len() + rs.len()) =~= rs) by {
            assert forall|k: int| 0 <= k < rs.len() implies source[i + hs.len() + k] == rs[k] by {
                assert(source.subrange(i, i + whole.len())[hs.len() + k] == (hs + rs)[hs.len()
                    + k]);
            }
        }
        assert(hw.len() > 0);
        lemma_rlew_follows_tokens(source, tag, target, i + hs.len(), out + hw, rest);
        assert(out + hw + rw =~= out + (hw + rw));
        assert(out.len() < target);
        assert(source[i] == hs[0]) by {
            assert(source.subrange(i, i + whole.len())[0] == (hs + rs)[0]);
        }
        if hs.len() == 3 {
            assert(source[i + 1] == hs[1]) by {
                assert(source.subrange(i, i + whole.len())[1] == (hs + rs)[1]);
            }
            assert(source[i + 2] == hs[2]) by {
                assert(source.subrange(i, i + whole.len())[2] == (hs + rs)[2]);
            }
        }
        match t {
            RlewToken::Literal(w) => {
                assert(source[i] == w);
                assert(out.push(w) =~= out + hw);
                assert(rlew_from(source, tag, target, i, out) == rlew_from(
                    source,
                    tag,
                    target,
                    i + 1,
                    out + hw,
                ));
            },
            RlewToken::Run { count, value } => {
                assert(source[i] == tag);
                assert(source[i + 1] == count);
                assert(source[i + 2] == value);
                assert(i + 2 < source.len());
                assert(out + Seq::new(source[i + 1] as nat, |k: int| source[i + 2]) =~= out + hw);
                assert(rlew_from(source, tag, target, i, out) == rlew_from(
                    source,
                    tag,
                    target,
                    i + 3,
                    out + hw,
                ));
            },
        }
    }
}

/// Decoding what an RLEW encoder wrote gives back the words it encoded.
pub proof fn lemma_rlew_round_trip(tag: u16, tokens: Seq<RlewToken>)
    requires
        rlew_stream_valid(tag, tokens),
    ensures
        rlew_decoded(
            rlew_stream_source(tag, tokens),
            tag,
            rlew_stream_words(tokens).len(),
        ) == Ok::<Seq<u16>, FormatError>(rlew_stream_words(tokens)),
{
    let source = rlew_stream_source(tag, tokens);
    let words = rlew_stream_words(tokens);
    assert(source.subrange(0, source.len() as int) =~= source);
    lemma_rlew_follows_tokens(source, tag, words.len(), 0, Seq::empty(), tokens);
    assert(Seq::<u16>::empty() + words =~= words);
    assert(words.take(words.len() as int) =~= words);
}

/// Appends a back-reference copy of `count` words starting at `start` to `out`.
fn copy_back(out: &mut Vec<u16>, start: usize, count: usize)
    requires
        start < old(out)@.len(),
    ensures
        final(out)@ == copy_run(old(out)@, start as int, count as nat),
{
    let ghost goal = copy_run(out@, start as int, count as nat);
    let mut n: usize = 0;
    while n < count
        invariant
            n <= count,
            start + n < out@.len(),
            copy_run(out@, start + n, (count - n) as nat) == goal,
        decreases count - n,
    {
        let _current_len = out.len();
        let value = out[start + n];
        out.push(value);
        n = n + 1;
    }
}

/// Expands Carmack-compressed bytes into exactly `expanded_words` words.
pub fn carmack_expand(input: &[u8], expanded_words: usize) -> (r: Result<Vec<u16>, DataError>)
    ensures
        match carmack_decoded(input@, expanded_words as nat) {
            Ok(words) => r matches Ok(v) && v@ == words,
            Err(kind) => r == Err::<Vec<u16>, DataError>(DataError::InvalidFormat(kind)),
        },
{
    let mut out: Vec<u16> = Vec::with_capacity(expanded_words);
    let mut i: usize = 0;
    let len = input.len();

    while out.len() < expanded_words
        invariant
            len == input@.len(),
            i <= len,
            carmack_from(input@, expanded_words as nat, i as int, out@) == carmack_decoded(
                input@,
                expanded_words as nat,
            ),
        decreases len - i,
    {
        let ch = match read_u16_from_slice(input, &mut i) {
            Ok(ch) => ch,
            Err(error) => return Err(error),
        };
        let ch_high = (ch >> 8) as u8;
        assert(ch >> 8 == ch / 256 && ch & 0x00FF == ch % 256 && ch & 0xFF00 == ch - ch % 256)
            by (bit_vector);

        if ch_high == NEAR_TAG {
            let count = (ch & 0x00FF) as usize;
            if count == 0 {
                if i >= len {
                    return Err(DataError::InvalidFormat(FormatError::NearEscapeMissing));
                }
                let low = input[i];
                i = i + 1;
                assert((ch & 0xFF00) | (low as u16) == (ch & 0xFF00) + low) by (bit_vector)
                    requires
                        ch >> 8 == 0xA7u16,
                ;
                out.push((ch & 0xFF00) | low as u16);
            } else {
                if i >= len {
                    return Err(DataError::InvalidFormat(FormatError::NearOffsetMissing));
                }
                let back_offset = input[i] as usize;
                i = i + 1;

                if back_offset == 0 || back_offset > out.len() {
                    return Err(DataError::InvalidFormat(FormatError::NearBackReference));
                }

                let start = out.len() - back_offset;
                copy_back(&mut out, start, count);
            }
        } else if ch_high == FAR_TAG {
            let count = (ch & 0x00FF) as usize;
            if count == 0 {
                if i >= len {
                    return Err(DataError::InvalidFormat(FormatError::FarEscapeMissing));
                }
                let low = input[i];
                i = i + 1;
                assert((ch & 0xFF00) | (low as u16) == (ch & 0xFF00) + low) by (bit_vector)
                    requires
                        ch >> 8 == 0xA8u16,
                ;
                out.push((ch & 0xFF00) | low as u16);
            } else {
                let offset = match read_u16_from_slice(input, &mut i) {
                    Ok(offset) => offset as usize,
                    Err(error) => return Err(error),
                };
                if offset >= out.len() {
                    return Err(DataError::InvalidFormat(FormatError::FarOffsetOutOfRange));
                }
                copy_back(&mut out, offset, count);
            }
        } else {
            out.push(ch);
        }
    }

    out.truncate(expanded_words);
    Ok(out)
}

/// Expands RLEW-compressed words (marker `rlew_tag`, then count, then value) into
/// exactly `expanded_words` words.
pub fn rlew_expand(source: &[u16], rlew_tag: u16, expanded_words: usize) -> (r: Result<
    Vec<u16>,
    DataError,
>)
    ensures
        match rlew_decoded(source@, rlew_tag, expanded_words as nat) {
            Ok(words) => r matches Ok(v) && v@ == words,
            Err(kind) => r == Err::<Vec<u16>, DataError>(DataError::InvalidFormat(kind)),
        },
{
    let mut out: Vec<u16> = Vec::with_capacity(expanded_words);
    let mut i: usize = 0;
    let len = source.len();

    while out.len() < expanded_words
        invariant
            len == source@.len(),
            i <= len,
            rlew_from(source@, rlew_tag, expanded_words as nat, i as int, out@) == rlew_decoded(
                source@,
                rlew_tag,
                expanded_words as nat,
            ),
        decreases len - i,
    {
        if i >= len {
            return Err(DataError::InvalidFormat(FormatError::RlewInputEnded));
        }
        let value = source[i];
        i = i + 1;

        if value != rlew_tag {
            out.push(value);
            continue;
        }

        if i >= len {
            return Err(DataError::InvalidFormat(FormatError::RlewCountMissing));
        }
        let count = source[i] as usize;
        i = i + 1;

        if i >= len {
            return Err(DataError::InvalidFormat(FormatError::RlewValueMissing));
        }
        let repeated = source[i];
        i = i + 1;

        let ghost before = out@;
        let mut n: usize = 0;
        while n < count
            invariant
                n <= count,
                out@ == before + Seq::new(n as nat, |k: int| repeated),
            decreases count - n,
        {
            out.push(repeated);
            n = n + 1;
            assert(out@ =~= before + Seq::new(n as nat, |k: int| repeated));
        }
    }

    out.truncate(expanded_words);
    Ok(out)
}

} // verus!
