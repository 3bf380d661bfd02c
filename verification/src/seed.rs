use vstd::prelude::*;
use crate::errors::Error;
use crate::wordlist::Wordlist;
use crate::wordlist::word_ok;

verus! {

/// The CRC-32 checksum of a byte string, as crc32fast computes it; a
/// function of the input bytes alone.
pub uninterp spec fn crc32_of(data: Seq<u8>) -> u32;

/// Relies on crc32fast::hash: the CRC-32 (IEEE) checksum of the input bytes.
#[verifier::external_body]
fn crc32(data: &[u8]) -> (r: u32)
    ensures
        r == crc32_of(data@),
{
    crc32fast::hash(data)
}

/// The three base-1626 word indices encoding a 32-bit chunk.  The second and
/// third digits are offset by their predecessor, as the seed scheme
/// prescribes; every index is below 1626.
pub open spec fn chunk_indices(x: u32) -> Seq<int> {
    seq![
        x as int % 1626,
        (x as int / 1626 + x as int % 1626) % 1626,
        (x as int / (1626int * 1626int) + (x as int / 1626 + x as int % 1626) % 1626) % 1626,
    ]
}

/// The 32-bit value of entropy chunk `c`: bytes `4c .. 4c+4`, little-endian.
pub open spec fn chunk_value(e: Seq<u8>, c: int) -> u32 {
    vstd::bytes::spec_u32_from_le_bytes(e.subrange(4 * c, 4 * c + 4))
}

/// The 24 word indices of 32 bytes of entropy.
pub open spec fn entropy_indices(e: Seq<u8>) -> Seq<int> {
    Seq::new(24, |k: int| chunk_indices(chunk_value(e, k / 3))[k % 3])
}

/// The part of a word the checksum covers: its first `plen` bytes, or the
/// whole word when it is shorter.  The prefix length is a property of the
/// wordlist's language.
pub open spec fn word_prefix(w: Seq<u8>, plen: int) -> Seq<u8> {
    if w.len() <= plen {
        w
    } else {
        w.take(plen)
    }
}

/// The concatenated checksum prefixes of a sequence of words.
pub open spec fn prefixes(ws: Seq<Seq<u8>>, plen: int) -> Seq<u8>
    decreases ws.len(),
{
    if ws.len() == 0 {
        Seq::empty()
    } else {
        prefixes(ws.drop_last(), plen) + word_prefix(ws.last(), plen)
    }
}

/// Which of the 24 data words the checksum word repeats: the CRC-32 of their
/// prefixes, modulo 24.
pub open spec fn checksum_index(ws: Seq<Seq<u8>>, plen: int) -> int {
    crc32_of(prefixes(ws, plen)) as int % 24
}

/// The 25 words of the mnemonic of `e` over wordlist `wl` with checksum
/// prefix length `plen`: 24 data words followed by the checksum word, which
/// repeats the selected data word.
pub open spec fn mnemonic_words(e: Seq<u8>, wl: Seq<Seq<u8>>, plen: int) -> Seq<Seq<u8>> {
    let data = Seq::new(24, |k: int| wl[entropy_indices(e)[k]]);
    data.push(data[checksum_index(data, plen)])
}

/// Words joined by single spaces.
pub open spec fn join_words(ws: Seq<Seq<u8>>) -> Seq<u8>
    decreases ws.len(),
{
    if ws.len() == 0 {
        Seq::empty()
    } else if ws.len() == 1 {
        ws[0]
    } else {
        join_words(ws.drop_last()) + seq![32u8] + ws.last()
    }
}

/// The mnemonic text, as bytes, of an entropy value over a wordlist with
/// checksum prefix length `plen`.
pub open spec fn mnemonic_bytes(e: Seq<u8>, wl: Seq<Seq<u8>>, plen: int) -> Seq<u8> {
    join_words(mnemonic_words(e, wl, plen))
}

/// Copy a byte string.
fn copy_bytes(w: &Vec<u8>) -> (r: Vec<u8>)
    ensures
        r@ == w@,
{
    let mut r: Vec<u8> = Vec::new();
    let mut i: usize = 0;
    while i < w.len()
        invariant
            0 <= i <= w@.len(),
            r@ == w@.take(i as int),
        decreases w@.len() - i,
    {
        r.push(w[i]);
        assert(r@ =~= w@.take(i + 1));
        i = i + 1;
    }
    assert(w@.take(w@.len() as int) =~= w@);
    r
}

/// Append `w`'s checksum prefix of length `plen` to `buf`.
fn push_prefix(buf: &mut Vec<u8>, w: &Vec<u8>, plen: usize)
    ensures
        final(buf)@ == old(buf)@ + word_prefix(w@, plen as int),
{
    let cut: usize = if w.len() <= plen {
        w.len()
    } else {
        plen
    };
    assert(word_prefix(w@, plen as int) == w@.take(cut as int)) by {
        if w@.len() <= plen {
            assert(w@.take(w@.len() as int) =~= w@);
        }
    }
    let mut t: usize = 0;
    while t < cut
        invariant
            0 <= t <= cut <= w@.len(),
            buf@ == old(buf)@ + w@.take(t as int),
        decreases cut - t,
    {
        buf.push(w[t]);
        assert(buf@ =~= old(buf)@ + w@.take(t + 1));
        t = t + 1;
    }
}

/// Encode 32 bytes of entropy as a 25-word, checksummed mnemonic over the
/// given wordlist, the words separated by single spaces.
pub fn encode_mnemonic(entropy: &[u8; 32], wl: &Wordlist) -> (m: Vec<u8>)
    requires
        wl.wf(),
    ensures
        m@ == mnemonic_bytes(entropy@, wl.words(), wl.prefix_length()),
{
    let ghost e = entropy@;
    let ghost wsv = wl.words();
    let plen = wl.prefix();
    let ghost plenv = wl.prefix_length();
    let entropy_slice = entropy.as_slice();
    let mut words: Vec<Vec<u8>> = Vec::new();
    let mut c: usize = 0;
    while c < 8
        invariant
            0 <= c <= 8,
            wl.wf(),
            wsv == wl.words(),
            entropy_slice@ == e,
            e.len() == 32,
            words@.len() == 3 * c,
            forall|k: int|
                0 <= k < 3 * c ==> #[trigger] words@[k]@ == wsv[entropy_indices(e)[k]],
        decreases 8 - c,
    {
        let sub = vstd::slice::slice_subrange(entropy_slice, 4 * c, 4 * c + 4);
        let x = vstd::bytes::u32_from_le_bytes(sub);
        assert(x == chunk_value(e, c as int));
        let xl: u64 = x as u64;
        let q1: u64 = xl / 1626;
        let r1: u64 = xl % 1626;
        let i1 = (xl % 1626) as usize;
        let i2 = ((q1 + r1) % 1626) as usize;
        let i3 = ((xl / (1626 * 1626) + (q1 + r1) % 1626) % 1626) as usize;
        assert(i1 as int == chunk_indices(x)[0]);
        assert(i2 as int == chunk_indices(x)[1]);
        assert(i3 as int == chunk_indices(x)[2]);
        words.push(copy_bytes(wl.word(i1)));
        words.push(copy_bytes(wl.word(i2)));
        words.push(copy_bytes(wl.word(i3)));
        proof {
            assert(entropy_indices(e)[3 * c] == chunk_indices(chunk_value(e, c as int))[0]);
            assert(entropy_indices(e)[3 * c + 1] == chunk_indices(chunk_value(e, c as int))[1]);
            assert(entropy_indices(e)[3 * c + 2] == chunk_indices(chunk_value(e, c as int))[2]);
        }
        c = c + 1;
    }
    let ghost data = Seq::new(24, |k: int| wsv[entropy_indices(e)[k]]);
    assert(forall|t: int| 0 <= t < 24 ==> #[trigger] words@[t]@ == data[t]);
    let mut prefix_buf: Vec<u8> = Vec::new();
    let mut k: usize = 0;
    while k < 24
        invariant
            0 <= k <= 24,
            words@.len() == 24,
            data.len() == 24,
            forall|t: int| 0 <= t < 24 ==> #[trigger] words@[t]@ == data[t],
            plen as int == plenv,
            prefix_buf@ == prefixes(data.take(k as int), plenv),
        decreases 24 - k,
    {
        push_prefix(&mut prefix_buf, &words[k], plen);
        proof {
            assert(data.len() == 24);
            let pre = data.take(k as int);
            let cur = data.take(k as int + 1);
            assert(cur.len() == k + 1);
            assert(cur.drop_last() =~= pre);
            assert(cur.last() == data[k as int]);
            assert(prefixes(cur, plenv) == prefixes(pre, plenv) + word_prefix(
                data[k as int],
                plenv,
            ));
        }
        k = k + 1;
    }
    assert(data.take(24) =~~= data);
    let crc = crc32(prefix_buf.as_slice());
    let idx = (crc % 24) as usize;
    assert(idx as int == checksum_index(data, plenv));
    let checksum_word = copy_bytes(&words[idx]);
    words.push(checksum_word);
    let ghost allw = mnemonic_words(e, wsv, plenv);
    assert(words@.len() == 25);
    assert(forall|t: int| 0 <= t < 25 ==> #[trigger] words@[t]@ == allw[t]);
    let mut out: Vec<u8> = Vec::new();
    let mut k: usize = 0;
    while k < 25
        invariant
            0 <= k <= 25,
            words@.len() == 25,
            allw.len() == 25,
            forall|t: int| 0 <= t < 25 ==> #[trigger] words@[t]@ == allw[t],
            out@ == join_words(allw.take(k as int)),
        decreases 25 - k,
    {
        if k > 0 {
            out.push(32);
        }
        let ghost mid = out@;
        let w = &words[k];
        let mut t: usize = 0;
        while t < w.len()
            invariant
                0 <= t <= w@.len(),
                out@ == mid + w@.take(t as int),
            decreases w@.len() - t,
        {
            out.push(w[t]);
            assert(out@ =~= mid + w@.take(t + 1));
            t = t + 1;
        }
        assert(w@.take(w@.len() as int) =~= w@);
        proof {
            assert(allw.len() == 25);
            let pre = allw.take(k as int);
            let cur = allw.take(k as int + 1);
            assert(cur.len() == k + 1);
            assert(cur.drop_last() =~= pre);
            assert(cur.last() == allw[k as int]);
            if k == 0 {
                assert(cur[0] == allw[0]);
                assert(join_words(cur) == allw[0]);
                assert(out@ =~= join_words(cur));
            } else {
                assert(join_words(cur) == join_words(pre) + seq![32u8] + allw[k as int]);
                assert(out@ =~= join_words(pre) + seq![32u8] + allw[k as int]);
            }
        }
        k = k + 1;
    }
    assert(allw.take(25) =~~= allw);
    crate::keys::wipe_word_buffers(&mut words);
    crate::keys::wipe_bytes(&mut prefix_buf);
    out
}

/// The words of a mnemonic text: the runs between space bytes, in order.
pub open spec fn split_spaces(m: Seq<u8>) -> Seq<Seq<u8>>
    decreases m.len(),
{
    if m.len() == 0 {
        seq![Seq::<u8>::empty()]
    } else if m.last() == 32 {
        split_spaces(m.drop_last()).push(Seq::empty())
    } else {
        let rest = split_spaces(m.drop_last());
        rest.update(rest.len() - 1, rest.last().push(m.last()))
    }
}

/// Whether the wordlist contains the word.
pub open spec fn has_word(wl: Seq<Seq<u8>>, w: Seq<u8>) -> bool {
    exists|i: int| 0 <= i < wl.len() && wl[i] == w
}

/// The position of a word in the wordlist.
pub open spec fn word_index(wl: Seq<Seq<u8>>, w: Seq<u8>) -> int {
    choose|i: int| 0 <= i < wl.len() && wl[i] == w
}

/// The value three word indices decode to; out of 32-bit range when the
/// words do not come from an encoding.
pub open spec fn chunk_recompose(w1: int, w2: int, w3: int) -> int {
    w1 + 1626 * ((w2 - w1) % 1626) + (1626int * 1626int) * ((w3 - w2) % 1626)
}

/// The entropy a sequence of words decodes to over a wordlist: 25 words, the
/// first 24 all on the list, every chunk in 32-bit range, and the last word
/// repeating the checksum-selected data word; `None` when any of that fails.
pub open spec fn words_value(ws: Seq<Seq<u8>>, wl: Seq<Seq<u8>>, plen: int) -> Option<Seq<u8>> {
    if ws.len() != 25 {
        None
    } else if !(forall|k: int| 0 <= k < 24 ==> has_word(wl, #[trigger] ws[k])) {
        None
    } else {
        let xs = Seq::new(
            8,
            |c: int|
                chunk_recompose(
                    word_index(wl, ws[3 * c]),
                    word_index(wl, ws[3 * c + 1]),
                    word_index(wl, ws[3 * c + 2]),
                ),
        );
        if !(forall|c: int| 0 <= c < 8 ==> 0 <= #[trigger] xs[c] < 0x100000000) {
            None
        } else if ws[24] != ws[checksum_index(ws.take(24), plen)] {
            None
        } else {
            Some(
                Seq::new(
                    32,
                    |i: int| vstd::bytes::spec_u32_to_le_bytes(xs[i / 4] as u32)[i % 4],
                ),
            )
        }
    }
}

/// What a mnemonic text decodes to over a wordlist with checksum prefix
/// length `plen`.
pub open spec fn decode_spec(m: Seq<u8>, wl: Seq<Seq<u8>>, plen: int) -> Option<Seq<u8>> {
    words_value(split_spaces(m), wl, plen)
}

/// Split a byte string at its space bytes.
fn split_bytes(m: &[u8]) -> (r: Vec<Vec<u8>>)
    ensures
        Seq::new(r@.len() as nat, |i: int| r@[i]@) == split_spaces(m@),
{
    let mut words: Vec<Vec<u8>> = Vec::new();
    let mut cur: Vec<u8> = Vec::new();
    let mut i: usize = 0;
    proof {
        assert(m@.take(0) =~= Seq::<u8>::empty());
        assert(Seq::new(words@.len() as nat, |t: int| words@[t]@).push(cur@) =~~= split_spaces(
            m@.take(0),
        ));
    }
    while i < m.len()
        invariant
            0 <= i <= m@.len(),
            split_spaces(m@.take(i as int)) == Seq::new(
                words@.len() as nat,
                |t: int| words@[t]@,
            ).push(cur@),
        decreases m@.len() - i,
    {
        let ghost pre_words = Seq::new(words@.len() as nat, |t: int| words@[t]@);
        let b = *vstd::slice::slice_index_get(m, i);
        proof {
            assert(m@.take(i + 1).drop_last() =~= m@.take(i as int));
            assert(m@.take(i + 1).last() == m@[i as int]);
        }
        if b == 32 {
            words.push(cur);
            cur = Vec::new();
            proof {
                assert(Seq::new(words@.len() as nat, |t: int| words@[t]@) =~~= pre_words.push(
                    split_spaces(m@.take(i as int)).last(),
                ));
                assert(split_spaces(m@.take(i + 1)) =~~= Seq::new(
                    words@.len() as nat,
                    |t: int| words@[t]@,
                ).push(cur@));
            }
        } else {
            cur.push(b);
            proof {
                let rest = split_spaces(m@.take(i as int));
                assert(split_spaces(m@.take(i + 1)) == rest.update(
                    rest.len() - 1,
                    rest.last().push(m@[i as int]),
                ));
                assert(split_spaces(m@.take(i + 1)) =~~= Seq::new(
                    words@.len() as nat,
                    |t: int| words@[t]@,
                ).push(cur@));
            }
        }
        i = i + 1;
    }
    assert(m@.take(m@.len() as int) =~= m@);
    words.push(cur);
    proof {
        assert(Seq::new(words@.len() as nat, |t: int| words@[t]@) =~~= split_spaces(m@));
    }
    words
}

/// Decode a mnemonic text back to its 32 bytes of entropy, checking the word
/// count, each word's membership, the chunk ranges and the checksum;
/// `Err(InvalidMnemonic)` exactly when the text does not decode.
pub fn decode_mnemonic(m: &[u8], wl: &Wordlist) -> (r: Result<[u8; 32], Error>)
    requires
        wl.wf(),
    ensures
        r matches Ok(e) ==> decode_spec(m@, wl.words(), wl.prefix_length()) == Some(e@),
        r is Err ==> decode_spec(m@, wl.words(), wl.prefix_length()) is None,
        r is Err ==> r == Err::<[u8; 32], Error>(Error::InvalidMnemonic),
{
    let ghost wsv = wl.words();
    let plen = wl.prefix();
    let ghost plenv = wl.prefix_length();
    let mut words = split_bytes(m);
    let ghost ws = split_spaces(m@);
    assert(words@.len() == ws.len());
    assert(forall|t: int| 0 <= t < ws.len() ==> #[trigger] words@[t]@ == ws[t]) by {
        assert(forall|t: int|
            0 <= t < ws.len() ==> Seq::new(words@.len() as nat, |i: int| words@[i]@)[t]
                == #[trigger] ws[t]);
    }
    if words.len() != 25 {
        crate::keys::wipe_word_buffers(&mut words);
        return Err(Error::InvalidMnemonic);
    }
    let mut idxs: Vec<usize> = Vec::new();
    let mut k: usize = 0;
    while k < 24
        invariant
            0 <= k <= 24,
            wl.wf(),
            wsv == wl.words(),
            ws == split_spaces(m@),
            words@.len() == 25,
            ws.len() == 25,
            forall|t: int| 0 <= t < 25 ==> #[trigger] words@[t]@ == ws[t],
            idxs@.len() == k,
            forall|t: int| 0 <= t < k ==> has_word(wsv, #[trigger] ws[t]),
            forall|t: int|
                0 <= t < k ==> (#[trigger] idxs@[t]) < 1626 && idxs@[t] as int == word_index(
                    wsv,
                    ws[t],
                ),
        decreases 24 - k,
    {
        match wl.find(&words[k]) {
            Some(i) => {
                proof {
                    assert(wsv[i as int] == ws[k as int]);
                    assert(has_word(wsv, ws[k as int]));
                    let j = word_index(wsv, ws[k as int]);
                    assert(0 <= j < wsv.len() && wsv[j] == ws[k as int]);
                    if j < i {
                        assert(wsv[j] != wsv[i as int]);
                        assert(false);
                    }
                    if i < j {
                        assert(wsv[i as int] != wsv[j]);
                        assert(false);
                    }
                }
                idxs.push(i);
            },
            None => {
                proof {
                    assert(!has_word(wsv, ws[k as int]));
                }
                crate::keys::wipe_word_buffers(&mut words);
                crate::keys::wipe_indices(&mut idxs);
                return Err(Error::InvalidMnemonic);
            },
        }
        k = k + 1;
    }
    let ghost xs = Seq::new(
        8,
        |c: int|
            chunk_recompose(
                word_index(wsv, ws[3 * c]),
                word_index(wsv, ws[3 * c + 1]),
                word_index(wsv, ws[3 * c + 2]),
            ),
    );
    let mut entropy = [0u8; 32];
    let mut c: usize = 0;
    while c < 8
        invariant
            0 <= c <= 8,
            wl.wf(),
            wsv == wl.words(),
            ws == split_spaces(m@),
            words@.len() == 25,
            ws.len() == 25,
            idxs@.len() == 24,
            forall|t: int| 0 <= t < 25 ==> #[trigger] words@[t]@ == ws[t],
            forall|t: int| 0 <= t < 24 ==> has_word(wsv, #[trigger] ws[t]),
            forall|t: int|
                0 <= t < 24 ==> (#[trigger] idxs@[t]) < 1626 && idxs@[t] as int == word_index(
                    wsv,
                    ws[t],
                ),
            xs == Seq::new(
                8,
                |t: int|
                    chunk_recompose(
                        word_index(wsv, ws[3 * t]),
                        word_index(wsv, ws[3 * t + 1]),
                        word_index(wsv, ws[3 * t + 2]),
                    ),
            ),
            forall|t: int| 0 <= t < c ==> 0 <= #[trigger] xs[t] < 0x100000000,
            forall|i: int|
                0 <= i < 4 * c ==> #[trigger] entropy@[i] == vstd::bytes::spec_u32_to_le_bytes(
                    xs[i / 4] as u32,
                )[i % 4],
        decreases 8 - c,
    {
        let w1 = idxs[3 * c] as u64;
        let w2 = idxs[3 * c + 1] as u64;
        let w3 = idxs[3 * c + 2] as u64;
        let m2 = (w2 + 1626 - w1) % 1626;
        let m3 = (w3 + 1626 - w2) % 1626;
        assert(w1 < 1626 && m2 < 1626 && m3 < 1626);
        assert(1626 * m2 <= 1626 * 1625) by (nonlinear_arith)
            requires
                m2 < 1626,
        ;
        assert(2643876 * m3 <= 2643876 * 1625) by (nonlinear_arith)
            requires
                m3 < 1626,
        ;
        let x: u64 = w1 + 1626 * m2 + 2643876 * m3;
        proof {
            vstd::arithmetic::div_mod::lemma_mod_add_multiples_vanish(w2 as int - w1 as int, 1626);
            vstd::arithmetic::div_mod::lemma_mod_add_multiples_vanish(w3 as int - w2 as int, 1626);
            assert(x as int == chunk_recompose(w1 as int, w2 as int, w3 as int));
            assert(xs[c as int] == chunk_recompose(w1 as int, w2 as int, w3 as int));
        }
        if x > 0xFFFFFFFF {
            proof {
                assert(!(0 <= xs[c as int] < 0x100000000));
            }
            crate::keys::wipe_word_buffers(&mut words);
            crate::keys::wipe_indices(&mut idxs);
            crate::keys::wipe32(&mut entropy);
            return Err(Error::InvalidMnemonic);
        }
        let bytes = vstd::bytes::u32_to_le_bytes(x as u32);
        let b0 = bytes[0];
        let b1 = bytes[1];
        let b2 = bytes[2];
        let b3 = bytes[3];
        entropy.set(4 * c, b0);
        entropy.set(4 * c + 1, b1);
        entropy.set(4 * c + 2, b2);
        entropy.set(4 * c + 3, b3);
        proof {
            assert forall|i: int|
                0 <= i < 4 * (c + 1) implies #[trigger] entropy@[i]
                == vstd::bytes::spec_u32_to_le_bytes(xs[i / 4] as u32)[i % 4] by {
                if i >= 4 * c {
                    assert(i / 4 == c as int);
                    assert(xs[i / 4] == x as int);
                }
            }
        }
        c = c + 1;
    }
    let mut prefix_buf: Vec<u8> = Vec::new();
    let ghost data = ws.take(24);
    let mut k: usize = 0;
    while k < 24
        invariant
            0 <= k <= 24,
            wl.wf(),
            wsv == wl.words(),
            ws == split_spaces(m@),
            words@.len() == 25,
            ws.len() == 25,
            data == ws.take(24),
            entropy@.len() == 32,
            plen as int == plenv,
            forall|t: int| 0 <= t < 25 ==> #[trigger] words@[t]@ == ws[t],
            forall|t: int| 0 <= t < 24 ==> has_word(wsv, #[trigger] ws[t]),
            xs == Seq::new(
                8,
                |t: int|
                    chunk_recompose(
                        word_index(wsv, ws[3 * t]),
                        word_index(wsv, ws[3 * t + 1]),
                        word_index(wsv, ws[3 * t + 2]),
                    ),
            ),
            forall|t: int| 0 <= t < 8 ==> 0 <= #[trigger] xs[t] < 0x100000000,
            forall|i: int|
                0 <= i < 32 ==> #[trigger] entropy@[i] == vstd::bytes::spec_u32_to_le_bytes(
                    xs[i / 4] as u32,
                )[i % 4],
            prefix_buf@ == prefixes(data.take(k as int), plenv),
        decreases 24 - k,
    {
        push_prefix(&mut prefix_buf, &words[k], plen);
        proof {
            assert(data.len() == 24);
            let pre = data.take(k as int);
            let cur = data.take(k as int + 1);
            assert(cur.len() == k + 1);
            assert(cur.drop_last() =~= pre);
            assert(cur.last() == data[k as int]);
            assert(data[k as int] == ws[k as int]);
            assert(prefixes(cur, plenv) == prefixes(pre, plenv) + word_prefix(
                data[k as int],
                plenv,
            ));
        }
        k = k + 1;
    }
    assert(data.take(24) =~~= data);
    let crc = crc32(prefix_buf.as_slice());
    let idx = (crc % 24) as usize;
    assert(idx as int == checksum_index(ws.take(24), plenv));
    if !crate::wordlist::bytes_eq(&words[24], &words[idx]) {
        proof {
            assert(ws[24] != ws[checksum_index(ws.take(24), plenv)]);
        }
        crate::keys::wipe_word_buffers(&mut words);
        crate::keys::wipe_indices(&mut idxs);
        crate::keys::wipe_bytes(&mut prefix_buf);
        crate::keys::wipe32(&mut entropy);
        return Err(Error::InvalidMnemonic);
    }
    proof {
        assert(ws[24] == ws[checksum_index(ws.take(24), plenv)]);
        assert(entropy@ =~= Seq::new(
            32,
            |i: int| vstd::bytes::spec_u32_to_le_bytes(xs[i / 4] as u32)[i % 4],
        ));
    }
    crate::keys::wipe_word_buffers(&mut words);
    crate::keys::wipe_indices(&mut idxs);
    crate::keys::wipe_bytes(&mut prefix_buf);
    Ok(entropy)
}

/// Splitting a single space-free word gives that word alone.
proof fn lemma_split_single(w: Seq<u8>)
    requires
        forall|k: int| 0 <= k < w.len() ==> #[trigger] w[k] != 32,
    ensures
        split_spaces(w) == seq![w],
    decreases w.len(),
{
    if w.len() == 0 {
        assert(split_spaces(w) =~~= seq![w]);
    } else {
        assert(forall|k: int|
            0 <= k < w.drop_last().len() ==> #[trigger] w.drop_last()[k] != 32);
        lemma_split_single(w.drop_last());
        let rest = split_spaces(w.drop_last());
        assert(rest == seq![w.drop_last()]);
        assert(rest.last().push(w.last()) =~= w);
        assert(split_spaces(w) =~~= seq![w]);
    }
}

/// Appending a space and then a space-free word appends one word to the
/// split.
proof fn lemma_split_append(m: Seq<u8>, w: Seq<u8>)
    requires
        forall|k: int| 0 <= k < w.len() ==> #[trigger] w[k] != 32,
    ensures
        split_spaces(m + seq![32u8] + w) == split_spaces(m).push(w),
    decreases w.len(),
{
    if w.len() == 0 {
        let full = m + seq![32u8] + w;
        assert(full =~= m + seq![32u8]);
        assert(full.last() == 32);
        assert(full.drop_last() =~= m);
        assert(w =~= Seq::<u8>::empty());
        assert(split_spaces(full) =~~= split_spaces(m).push(w));
    } else {
        assert(forall|k: int|
            0 <= k < w.drop_last().len() ==> #[trigger] w.drop_last()[k] != 32);
        lemma_split_append(m, w.drop_last());
        let full = m + seq![32u8] + w;
        assert(full.last() == w.last());
        assert(w.last() != 32);
        assert(full.drop_last() =~= m + seq![32u8] + w.drop_last());
        let rest = split_spaces(full.drop_last());
        assert(rest == split_spaces(m).push(w.drop_last()));
        assert(rest.last() == w.drop_last());
        assert(rest.last().push(w.last()) =~= w);
        assert(split_spaces(full) == rest.update(rest.len() - 1, rest.last().push(full.last())));
        assert(split_spaces(full) =~~= split_spaces(m).push(w));
    }
}

/// Splitting inverts joining, for words fit for a mnemonic.
proof fn lemma_split_join(ws: Seq<Seq<u8>>)
    requires
        ws.len() >= 1,
        forall|k: int| 0 <= k < ws.len() ==> word_ok(#[trigger] ws[k]),
    ensures
        split_spaces(join_words(ws)) == ws,
    decreases ws.len(),
{
    if ws.len() == 1 {
        assert(word_ok(ws[0]));
        assert(forall|k: int| 0 <= k < ws[0].len() ==> #[trigger] ws[0][k] != 32);
        lemma_split_single(ws[0]);
        assert(join_words(ws) == ws[0]);
        assert(split_spaces(join_words(ws)) =~~= ws);
    } else {
        let pre = ws.drop_last();
        assert(forall|k: int| 0 <= k < pre.len() ==> word_ok(#[trigger] pre[k]));
        lemma_split_join(pre);
        assert(word_ok(ws.last()));
        assert(forall|k: int| 0 <= k < ws.last().len() ==> #[trigger] ws.last()[k] != 32);
        lemma_split_append(join_words(pre), ws.last());
        assert(join_words(ws) == join_words(pre) + seq![32u8] + ws.last());
        assert(split_spaces(join_words(ws)) =~~= ws);
    }
}

/// Recomposing the three word indices of a 32-bit chunk recovers its value.
proof fn lemma_chunk_round_trip(x: u32)
    ensures
        chunk_recompose(chunk_indices(x)[0], chunk_indices(x)[1], chunk_indices(x)[2]) == x as int,
{
    let n = 1626int;
    let xi = x as int;
    let w1 = xi % n;
    let a = xi / n;
    let w2 = (a + w1) % n;
    let b = xi / (n * n);
    let w3 = (b + w2) % n;
    vstd::arithmetic::div_mod::lemma_mod_bound(xi, n);
    vstd::arithmetic::div_mod::lemma_div_pos_is_pos(xi, n);
    vstd::arithmetic::div_mod::lemma_div_pos_is_pos(xi, n * n);
    assert((w2 - w1) % n == a % n) by {
        vstd::arithmetic::div_mod::lemma_sub_mod_noop(a + w1, w1, n);
        vstd::arithmetic::div_mod::lemma_small_mod(w1 as nat, n as nat);
        vstd::arithmetic::div_mod::lemma_mod_bound(a + w1, n);
        vstd::arithmetic::div_mod::lemma_small_mod(w2 as nat, n as nat);
    }
    assert(b < n) by {
        vstd::arithmetic::div_mod::lemma_multiply_divide_lt(xi, n * n, n);
    }
    assert((w3 - w2) % n == b) by {
        vstd::arithmetic::div_mod::lemma_sub_mod_noop(b + w2, w2, n);
        vstd::arithmetic::div_mod::lemma_mod_bound(b + w2, n);
        vstd::arithmetic::div_mod::lemma_small_mod(w3 as nat, n as nat);
        vstd::arithmetic::div_mod::lemma_small_mod(w2 as nat, n as nat);
        vstd::arithmetic::div_mod::lemma_small_mod(b as nat, n as nat);
    }
    vstd::arithmetic::div_mod::lemma_fundamental_div_mod(xi, n);
    vstd::arithmetic::div_mod::lemma_fundamental_div_mod(a, n);
    vstd::arithmetic::div_mod::lemma_div_denominator(xi, n, n);
    assert((a / n) == b);
    assert(w1 + n * (a % n) + (n * n) * b == xi) by (nonlinear_arith)
        requires
            xi == n * a + w1,
            a == n * (a / n) + (a % n),
            b == a / n,
    ;
}

/// A word of the list indexes back to its own position.
proof fn lemma_word_index_of(wl: Seq<Seq<u8>>, i: int)
    requires
        crate::wordlist::wordlist_valid(wl),
        0 <= i < wl.len(),
    ensures
        has_word(wl, wl[i]),
        word_index(wl, wl[i]) == i,
{
    assert(has_word(wl, wl[i]));
    let j = word_index(wl, wl[i]);
    assert(0 <= j < wl.len() && wl[j] == wl[i]);
    if j < i {
        assert(wl[j] != wl[i]);
        assert(false);
    }
    if i < j {
        assert(wl[i] != wl[j]);
        assert(false);
    }
}

/// Every word of a mnemonic over a valid wordlist is fit for a mnemonic.
pub proof fn lemma_mnemonic_words_ok(e: Seq<u8>, wl: Seq<Seq<u8>>, plen: int)
    requires
        crate::wordlist::wordlist_valid(wl),
        e.len() == 32,
    ensures
        forall|k: int| 0 <= k < 25 ==> word_ok(#[trigger] mnemonic_words(e, wl, plen)[k]),
        mnemonic_words(e, wl, plen).len() == 25,
{
    let data = Seq::new(24, |t: int| wl[entropy_indices(e)[t]]);
    let ws = mnemonic_words(e, wl, plen);
    assert forall|k: int| 0 <= k < 25 implies word_ok(#[trigger] ws[k]) by {
        assert(0 <= checksum_index(data, plen) < 24);
        if k < 24 {
            assert(ws[k] == wl[entropy_indices(e)[k]]);
        } else {
            assert(ws[k] == data[checksum_index(data, plen)]);
        }
    }
}

/// Round trip: decoding the mnemonic of any 32-byte entropy value over any
/// valid wordlist, at any checksum prefix length, recovers exactly that
/// entropy.
pub proof fn lemma_mnemonic_round_trip(e: Seq<u8>, wl: Seq<Seq<u8>>, plen: int)
    requires
        crate::wordlist::wordlist_valid(wl),
        e.len() == 32,
    ensures
        decode_spec(mnemonic_bytes(e, wl, plen), wl, plen) == Some(e),
{
    let data = Seq::new(24, |k: int| wl[entropy_indices(e)[k]]);
    let ws = mnemonic_words(e, wl, plen);
    lemma_mnemonic_words_ok(e, wl, plen);
    lemma_split_join(ws);
    assert(split_spaces(mnemonic_bytes(e, wl, plen)) == ws);
    assert(ws.len() == 25);
    assert forall|k: int|
        0 <= k < 24 implies has_word(wl, #[trigger] ws[k]) && word_index(wl, ws[k])
        == entropy_indices(e)[k] by {
        assert(ws[k] == data[k]);
        assert(ws[k] == wl[entropy_indices(e)[k]]);
        lemma_word_index_of(wl, entropy_indices(e)[k]);
    }
    let xs = Seq::new(
        8,
        |c: int|
            chunk_recompose(
                word_index(wl, ws[3 * c]),
                word_index(wl, ws[3 * c + 1]),
                word_index(wl, ws[3 * c + 2]),
            ),
    );
    assert forall|c: int|
        0 <= c < 8 implies 0 <= #[trigger] xs[c] < 0x100000000 && xs[c] == chunk_value(e, c)
        as int by {
        let x = chunk_value(e, c);
        assert(entropy_indices(e)[3 * c] == chunk_indices(x)[0]);
        assert(entropy_indices(e)[3 * c + 1] == chunk_indices(x)[1]);
        assert(entropy_indices(e)[3 * c + 2] == chunk_indices(x)[2]);
        lemma_chunk_round_trip(x);
    }
    assert(ws.take(24) =~~= data);
    assert(ws[24] == data[checksum_index(data, plen)]);
    assert(0 <= checksum_index(data, plen) < 24);
    assert(ws[24] == ws[checksum_index(ws.take(24), plen)]);
    let result = Seq::new(
        32,
        |i: int| vstd::bytes::spec_u32_to_le_bytes(xs[i / 4] as u32)[i % 4],
    );
    assert(result =~= e) by {
        vstd::bytes::lemma_auto_spec_u32_to_from_le_bytes();
        assert forall|i: int| 0 <= i < 32 implies result[i] == e[i] by {
            let c = i / 4;
            assert(0 <= c < 8);
            assert(xs[c] == chunk_value(e, c) as int);
            let sub = e.subrange(4 * c, 4 * c + 4);
            assert(sub.len() == 4);
            assert(vstd::bytes::spec_u32_to_le_bytes(chunk_value(e, c)) == sub);
            assert(result[i] == sub[i % 4]);
            assert(sub[i % 4] == e[4 * c + i % 4]);
            assert(4 * c + i % 4 == i);
        }
    }
    assert(words_value(ws, wl, plen) == Some(result));
    assert(decode_spec(mnemonic_bytes(e, wl, plen), wl, plen) == Some(e));
}

/// Distinct entropy values have distinct mnemonics over the same valid
/// wordlist: the encoding loses nothing.
pub proof fn lemma_mnemonic_injective(e1: Seq<u8>, e2: Seq<u8>, wl: Seq<Seq<u8>>, plen: int)
    requires
        crate::wordlist::wordlist_valid(wl),
        e1.len() == 32,
        e2.len() == 32,
        mnemonic_bytes(e1, wl, plen) == mnemonic_bytes(e2, wl, plen),
    ensures
        e1 == e2,
{
    lemma_mnemonic_round_trip(e1, wl, plen);
    lemma_mnemonic_round_trip(e2, wl, plen);
}

} // verus!
