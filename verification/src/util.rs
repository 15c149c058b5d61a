//! Recovery of a window's launch command from the raw bytes of its
//! process's recorded command line: the arguments are separated by NUL
//! bytes, empty arguments are dropped, each argument is decoded
//! leniently, and the arguments are joined with single spaces.

use vstd::prelude::*;

verus! {

/// What lenient decoding makes of a byte sequence; the result depends
/// on the bytes alone.
pub uninterp spec fn lossy_of(b: Seq<u8>) -> Seq<char>;

/// Relies on `String::from_utf8_lossy`: the result is a function of the
/// bytes alone; valid UTF-8 — so in particular plain ASCII — decodes
/// unchanged, and invalid sequences become replacement characters.
#[verifier::external_body]
fn utf8_lossy(bytes: &[u8]) -> (r: String)
    ensures
        r@ == lossy_of(bytes@),
        (forall|i: int| 0 <= i < bytes@.len() ==> bytes@[i] < 128) ==> r@ == bytes@.map_values(
            |b: u8| b as char,
        ),
{
    String::from_utf8_lossy(bytes).into_owned()
}

/// Where the first NUL byte stands, or the length where there is none.
pub open spec fn first_nul(data: Seq<u8>) -> int
    decreases data.len(),
{
    if data.len() == 0 {
        0
    } else if data[0] == 0 {
        0
    } else {
        1 + first_nul(data.subrange(1, data.len() as int))
    }
}

/// `first_nul` points at the first NUL: everything before it is not
/// NUL, and it is a NUL or the end.
proof fn lemma_first_nul_char(data: Seq<u8>)
    ensures
        0 <= first_nul(data) <= data.len(),
        forall|m: int| 0 <= m < first_nul(data) ==> data[m] != 0,
        first_nul(data) == data.len() || data[first_nul(data)] == 0,
    decreases data.len(),
{
    if data.len() > 0 && data[0] != 0 {
        let tail = data.subrange(1, data.len() as int);
        lemma_first_nul_char(tail);
        assert forall|m: int| 0 <= m < first_nul(data) implies data[m] != 0 by {
            if m > 0 {
                assert(tail[m - 1] == data[m]);
            }
        }
    }
}

/// Any position with those two properties is `first_nul`.
proof fn lemma_first_nul_is(data: Seq<u8>, k: int)
    requires
        0 <= k <= data.len(),
        forall|m: int| 0 <= m < k ==> data[m] != 0,
        k == data.len() || data[k] == 0,
    ensures
        first_nul(data) == k,
    decreases k,
{
    if k > 0 {
        let tail = data.subrange(1, data.len() as int);
        assert forall|m: int| 0 <= m < k - 1 implies tail[m] != 0 by {
            assert(tail[m] == data[m + 1]);
        }
        assert(k - 1 == tail.len() || tail[k - 1] == 0);
        lemma_first_nul_is(tail, k - 1);
    }
}

/// The non-empty NUL-separated parts of a byte sequence, in order.
pub open spec fn split_parts(data: Seq<u8>) -> Seq<Seq<u8>>
    decreases data.len(),
    via split_parts_decreases
{
    if data.len() == 0 {
        Seq::empty()
    } else if data[0] == 0 {
        split_parts(data.subrange(1, data.len() as int))
    } else {
        seq![data.subrange(0, first_nul(data))] + split_parts(
            data.subrange(first_nul(data), data.len() as int),
        )
    }
}

#[via_fn]
proof fn split_parts_decreases(data: Seq<u8>) {
    lemma_first_nul_char(data);
}

/// A sequence of texts joined with single spaces.
pub open spec fn join_space(parts: Seq<Seq<char>>) -> Seq<char>
    decreases parts.len(),
{
    if parts.len() == 0 {
        Seq::empty()
    } else if parts.len() == 1 {
        parts[0]
    } else {
        join_space(parts.subrange(0, parts.len() - 1)) + seq![' '] + parts[parts.len() - 1]
    }
}

/// The command line recovered from raw process-table bytes: the
/// non-empty NUL-separated arguments, each leniently decoded, joined
/// with single spaces.
pub open spec fn cmdline_spec(data: Seq<u8>) -> Seq<char> {
    join_space(split_parts(data).map_values(|p: Seq<u8>| lossy_of(p)))
}

/// Rebuilds a launch command from the raw bytes of a process's recorded
/// command line.
pub fn cmdline_from_bytes(data: &Vec<u8>) -> (r: String)
    ensures
        r@ == cmdline_spec(data@),
{
    let mut parts: Vec<String> = Vec::new();
    let mut i: usize = 0;
    proof {
        assert(data@.subrange(0, data@.len() as int) =~= data@);
    }
    while i < data.len()
        invariant
            i <= data.len(),
            Seq::new(parts@.len(), |k: int| parts@[k]@) + split_parts(
                data@.subrange(i as int, data@.len() as int),
            ).map_values(|p: Seq<u8>| lossy_of(p)) == split_parts(data@).map_values(
                |p: Seq<u8>| lossy_of(p),
            ),
        decreases data.len() - i,
    {
        let ghost suffix = data@.subrange(i as int, data@.len() as int);
        if data[i] == 0 {
            proof {
                assert(suffix[0] == data@[i as int]);
                assert(suffix.subrange(1, suffix.len() as int) =~= data@.subrange(
                    i + 1 as int,
                    data@.len() as int,
                ));
            }
            i = i + 1;
        } else {
            let mut j: usize = i;
            let mut part: Vec<u8> = Vec::new();
            proof {
                assert(part@ =~= data@.subrange(i as int, i as int));
            }
            while j < data.len() && data[j] != 0
                invariant
                    i <= j <= data.len(),
                    part@ == data@.subrange(i as int, j as int),
                    forall|m: int| i <= m < j ==> data@[m] != 0,
                decreases data.len() - j,
            {
                part.push(data[j]);
                proof {
                    assert(data@.subrange(i as int, j + 1 as int) =~= data@.subrange(
                        i as int,
                        j as int,
                    ).push(data@[j as int]));
                }
                j = j + 1;
            }
            let decoded = utf8_lossy(part.as_slice());
            let ghost pre_parts = parts@;
            parts.push(decoded);
            proof {
                assert(suffix[0] == data@[i as int]);
                assert forall|m: int| 0 <= m < j - i implies suffix[m] != 0 by {
                    assert(suffix[m] == data@[i + m]);
                }
                assert(j - i == suffix.len() || suffix[j - i] == 0);
                lemma_first_nul_is(suffix, j - i);
                assert(suffix.subrange(0, j - i) =~= data@.subrange(i as int, j as int));
                assert(suffix.subrange(j - i, suffix.len() as int) =~= data@.subrange(
                    j as int,
                    data@.len() as int,
                ));
                assert(split_parts(suffix) == seq![data@.subrange(i as int, j as int)]
                    + split_parts(data@.subrange(j as int, data@.len() as int)));
                let f = |p: Seq<u8>| lossy_of(p);
                assert((seq![data@.subrange(i as int, j as int)] + split_parts(
                    data@.subrange(j as int, data@.len() as int),
                )).map_values(f) =~= seq![lossy_of(data@.subrange(i as int, j as int))]
                    + split_parts(data@.subrange(j as int, data@.len() as int)).map_values(f));
                assert(Seq::new(parts@.len(), |k: int| parts@[k]@) =~= Seq::new(
                    pre_parts.len(),
                    |k: int| pre_parts[k]@,
                ).push(decoded@));
                assert(Seq::new(parts@.len(), |k: int| parts@[k]@) + split_parts(
                    data@.subrange(j as int, data@.len() as int),
                ).map_values(f) =~= Seq::new(pre_parts.len(), |k: int| pre_parts[k]@)
                    + split_parts(suffix).map_values(f));
            }
            i = j;
        }
    }
    proof {
        assert(data@.subrange(data@.len() as int, data@.len() as int) =~= Seq::<u8>::empty());
        assert(split_parts(Seq::<u8>::empty()).map_values(|p: Seq<u8>| lossy_of(p)) =~= Seq::<
            Seq<char>,
        >::empty());
        assert(Seq::new(parts@.len(), |k: int| parts@[k]@) =~= split_parts(data@).map_values(
            |p: Seq<u8>| lossy_of(p),
        ));
    }
    let mut out = String::new();
    let mut k: usize = 0;
    let ghost decoded_all = split_parts(data@).map_values(|p: Seq<u8>| lossy_of(p));
    proof {
        assert(decoded_all.subrange(0, 0) =~= Seq::<Seq<char>>::empty());
    }
    while k < parts.len()
        invariant
            k <= parts.len(),
            parts@.len() == decoded_all.len(),
            forall|m: int| 0 <= m < parts@.len() ==> parts@[m]@ == decoded_all[m],
            out@ == join_space(decoded_all.subrange(0, k as int)),
        decreases parts.len() - k,
    {
        if k > 0 {
            out.push(' ');
        }
        out.append(parts[k].as_str());
        proof {
            let prefix = decoded_all.subrange(0, k + 1 as int);
            assert(prefix.subrange(0, prefix.len() - 1) =~= decoded_all.subrange(0, k as int));
            assert(prefix[prefix.len() - 1] == decoded_all[k as int]);
            if k == 0 {
                assert(out@ =~= join_space(prefix));
            } else {
                assert(out@ =~= join_space(prefix));
            }
        }
        k = k + 1;
    }
    proof {
        assert(decoded_all.subrange(0, decoded_all.len() as int) =~= decoded_all);
    }
    out
}

} // verus!
