//! An opened payload: its header, its manifest's partitions sorted by name,
//! and its signatures.
use crate::header::{spec_parse_header, FormatError, Header, HEADER_SIZE};
use crate::index::{compare_names, lemma_lex_cmp_props, lex_cmp};
use crate::manifest::{
    decode_manifest, decode_signatures, partitions_view, signatures_view, spec_manifest,
    spec_signatures, PartitionUpdate, PartitionUpdateView, Signature,
};
use vstd::prelude::*;
use vstd::slice::slice_subrange;
use vstd::utf8::{decode_utf8, encode_utf8, valid_utf8};

verus! {

/// The partition names of `ps`, in order.
pub open spec fn names_of(ps: Seq<PartitionUpdateView>) -> Seq<Seq<u8>> {
    ps.map_values(|p: PartitionUpdateView| p.name)
}

/// `ps` is in ascending byte order of partition names.
pub open spec fn names_sorted(ps: Seq<PartitionUpdateView>) -> bool {
    forall|i: int, j: int| 0 <= i < j < ps.len() ==> lex_cmp(#[trigger] ps[i].name, #[trigger] ps[j].name) <= 0
}

/// What opening a payload whose first bytes are `s` gives: the header, the
/// manifest's partitions in manifest order, and the data of each signature.
pub open spec fn spec_open(s: Seq<u8>) -> Result<
    (Header, Seq<PartitionUpdateView>, Seq<Seq<u8>>),
    FormatError,
> {
    match spec_parse_header(s) {
        Err(e) => Err(e),
        Ok(h) => {
            let m_end = HEADER_SIZE + h.manifest_size;
            let end = m_end + h.manifest_signature_size;
            if s.len() < end {
                Err(FormatError::Truncated)
            } else {
                match spec_manifest(s.subrange(HEADER_SIZE as int, m_end)) {
                    None => Err(FormatError::BadManifest),
                    Some(ps) => match spec_signatures(s.subrange(m_end, end)) {
                        None => Err(FormatError::BadSignatures),
                        Some(g) => Ok((h, ps, g)),
                    },
                }
            }
        },
    }
}

/// A requested partition that the manifest does not list.
#[derive(Debug, Clone, Copy, PartialEq, Eq, Structural)]
pub struct NotFound;

/// A decoded payload, ready for extraction.
#[derive(Debug)]
pub struct Payload {
    pub header: Header,
    /// The manifest's partitions, sorted by name.
    pub partitions: Vec<PartitionUpdate>,
    pub signatures: Vec<Signature>,
    /// Whether the digest of each operation's encoded bytes is checked.
    pub verify: bool,
    /// Whether progress is kept from the user.
    pub quiet: bool,
}

/// Relies on `slice::sort_by_key`: the items are reordered, none is lost or
/// added, and they end in ascending order of their names, which `Vec<u8>`
/// orders byte by byte with a proper prefix first.
#[verifier::external_body]
fn sort_by_name(v: &mut Vec<PartitionUpdate>)
    ensures
        partitions_view(final(v)@).to_multiset() == partitions_view(old(v)@).to_multiset(),
        names_sorted(partitions_view(final(v)@)),
{
    v.sort_by_key(|p| p.name.clone());
}

/// Relies on `String::from_utf8_lossy`: valid UTF-8 is taken as it is.
#[verifier::external_body]
fn utf8_to_string(b: &Vec<u8>) -> (r: String)
    requires
        valid_utf8(b@),
    ensures
        r@ == decode_utf8(b@),
{
    String::from_utf8_lossy(b).into_owned()
}

proof fn lemma_reorder_keeps_utf8(before: Seq<PartitionUpdateView>, v: Seq<PartitionUpdate>)
    requires
        forall|i: int| 0 <= i < before.len() ==> valid_utf8(#[trigger] before[i].name),
        partitions_view(v).to_multiset() == before.to_multiset(),
    ensures
        forall|i: int| 0 <= i < v.len() ==> valid_utf8(#[trigger] v[i].name@),
{
    let after = partitions_view(v);
    after.to_multiset_ensures();
    before.to_multiset_ensures();
    assert forall|i: int| 0 <= i < v.len() implies valid_utf8(#[trigger] v[i].name@) by {
        assert(after[i] == v[i]@);
        assert(after.contains(after[i]));
        assert(after.to_multiset().count(after[i]) > 0);
        assert(before.to_multiset().count(after[i]) > 0);
        assert(before.contains(after[i]));
        let j = choose|j: int| 0 <= j < before.len() && before[j] == after[i];
        assert(valid_utf8(before[j].name));
    }
}

/// `p` is what opening a payload whose first bytes are `s` gives: a
/// well-formed payload with the header, the manifest's partitions reordered
/// by name, and the signatures of `s`, with hash checking on and progress
/// shown.
pub open spec fn opened_from(p: Payload, s: Seq<u8>) -> bool {
    match spec_open(s) {
        Ok((h, ps, g)) => {
            &&& p.wf()
            &&& p.header == h
            &&& partitions_view(p.partitions@).to_multiset() == ps.to_multiset()
            &&& signatures_view(p.signatures@) == g
            &&& p.verify
            &&& !p.quiet
        },
        Err(_) => false,
    }
}

/// Where a manifest names each partition once, the payload opened from it
/// lists exactly the manifest's partition names, each once, in strictly
/// ascending byte order.
pub proof fn lemma_open_lists_names(s: Seq<u8>, p: Payload)
    requires
        opened_from(p, s),
        spec_open(s) matches Ok((_, ms, _)) && names_of(ms).no_duplicates(),
    ensures
        spec_open(s) matches Ok((_, ms, _)) && names_of(partitions_view(p.partitions@)).to_set()
            == names_of(ms).to_set(),
        names_of(partitions_view(p.partitions@)).no_duplicates(),
        forall|i: int, j: int|
            0 <= i < j < p.partitions@.len() ==> lex_cmp(
                #[trigger] p.partitions@[i].name@,
                #[trigger] p.partitions@[j].name@,
            ) < 0,
{
    let ms = spec_open(s)->Ok_0.1;
    let f = partitions_view(p.partitions@);
    let fnames = names_of(f);
    let mnames = names_of(ms);
    assert(ms.no_duplicates()) by {
        assert forall|i: int, j: int| 0 <= i < ms.len() && 0 <= j < ms.len() && i != j implies ms[i]
            != ms[j] by {
            assert(mnames[i] == ms[i].name);
            assert(mnames[j] == ms[j].name);
        }
    }
    ms.lemma_multiset_has_no_duplicates();
    f.to_multiset_ensures();
    ms.to_multiset_ensures();
    f.lemma_multiset_has_no_duplicates_conv();
    // each entry of the sorted list stands in the manifest
    assert forall|i: int| 0 <= i < f.len() implies exists|k: int|
        0 <= k < ms.len() && ms[k] == #[trigger] f[i] by {
        assert(f.contains(f[i]));
        assert(f.to_multiset().count(f[i]) > 0);
        assert(ms.contains(f[i]));
    }
    assert forall|i: int, j: int|
        0 <= i < fnames.len() && 0 <= j < fnames.len() && i != j implies fnames[i] != fnames[j] by {
        let k = choose|k: int| 0 <= k < ms.len() && ms[k] == f[i];
        let l = choose|l: int| 0 <= l < ms.len() && ms[l] == f[j];
        assert(mnames[k] == ms[k].name);
        assert(mnames[l] == ms[l].name);
        assert(f[i] != f[j]);
    }
    assert forall|x: Seq<u8>| fnames.to_set().contains(x) <==> mnames.to_set().contains(x) by {
        if fnames.contains(x) {
            let i = choose|i: int| 0 <= i < fnames.len() && fnames[i] == x;
            let k = choose|k: int| 0 <= k < ms.len() && ms[k] == f[i];
            assert(mnames[k] == x);
        }
        if mnames.contains(x) {
            let k = choose|k: int| 0 <= k < mnames.len() && mnames[k] == x;
            assert(ms.contains(ms[k]));
            assert(ms.to_multiset().count(ms[k]) > 0);
            assert(f.contains(ms[k]));
            let i = choose|i: int| 0 <= i < f.len() && f[i] == ms[k];
            assert(fnames[i] == x);
        }
    }
    assert(fnames.to_set() =~= mnames.to_set());
    assert forall|i: int, j: int| 0 <= i < j < p.partitions@.len() implies lex_cmp(
        #[trigger] p.partitions@[i].name@,
        #[trigger] p.partitions@[j].name@,
    ) < 0 by {
        assert(f[i].name == p.partitions@[i].name@);
        assert(f[j].name == p.partitions@[j].name@);
        assert(fnames[i] == f[i].name);
        assert(fnames[j] == f[j].name);
        lemma_lex_cmp_props(f[i].name, f[j].name);
    }
}

impl Payload {
    /// The partitions are sorted by name, every name is UTF-8, and the data
    /// blob region starts at an offset that fits in 64 bits.
    pub open spec fn wf(&self) -> bool {
        &&& names_sorted(partitions_view(self.partitions@))
        &&& forall|i: int|
            0 <= i < self.partitions@.len() ==> valid_utf8(#[trigger] self.partitions@[i].name@)
        &&& HEADER_SIZE + self.header.manifest_size + self.header.manifest_signature_size
            <= u64::MAX
    }

    /// Decodes a payload from its first bytes `s`, which hold at least the
    /// header, the manifest and the signature blob. The partitions are
    /// sorted by name; hash checking is on and progress is shown.
    #[verifier::rlimit(60)]
    pub fn open(s: &[u8]) -> (r: Result<Payload, FormatError>)
        ensures
            match (r, spec_open(s@)) {
                (Ok(p), Ok(_)) => opened_from(p, s@),
                (Err(e), Err(f)) => e == f,
                _ => false,
            },
    {
        let len = s.len();
        let header = match Header::parse(s) {
            Ok(h) => h,
            Err(e) => return Err(e),
        };
        let end = match header.data_offset() {
            Some(end) => end,
            None => return Err(FormatError::Truncated),
        };
        if (s.len() as u64) < end {
            return Err(FormatError::Truncated);
        }
        let m_end = (HEADER_SIZE + header.manifest_size) as usize;
        let mut partitions = match decode_manifest(slice_subrange(s, 24, m_end)) {
            Some(ps) => ps,
            None => return Err(FormatError::BadManifest),
        };
        let signatures = match decode_signatures(slice_subrange(s, m_end, end as usize)) {
            Some(g) => g,
            None => return Err(FormatError::BadSignatures),
        };
        proof {
            crate::manifest::lemma_manifest_names_utf8(s@.subrange(HEADER_SIZE as int, m_end as int));
        }
        let ghost before = partitions_view(partitions@);
        sort_by_name(&mut partitions);
        proof {
            lemma_reorder_keeps_utf8(before, partitions@);
        }
        Ok(Payload { header, partitions, signatures, verify: true, quiet: false })
    }

    /// The same payload with progress kept from the user.
    pub fn quiet(self) -> (r: Payload)
        ensures
            r == (Payload { quiet: true, ..self }),
    {
        Payload { quiet: true, ..self }
    }

    /// The same payload with the digest checks switched off.
    pub fn skip_verify(self) -> (r: Payload)
        ensures
            r == (Payload { verify: false, ..self }),
    {
        Payload { verify: false, ..self }
    }

    /// The payload's header.
    pub fn header(&self) -> (r: &Header)
        ensures
            *r == self.header,
    {
        &self.header
    }

    /// The partitions, sorted by name.
    pub fn partitions(&self) -> (r: &[PartitionUpdate])
        ensures
            r@ == self.partitions@,
    {
        self.partitions.as_slice()
    }

    /// The names of the partitions, in sorted order.
    pub fn partition_list(&self) -> (r: Vec<String>)
        requires
            self.wf(),
        ensures
            r@.len() == self.partitions@.len(),
            forall|i: int|
                0 <= i < r@.len() ==> #[trigger] r@[i]@ == decode_utf8(self.partitions@[i].name@),
    {
        let mut out: Vec<String> = Vec::new();
        let mut i: usize = 0;
        while i < self.partitions.len()
            invariant
                self.wf(),
                i <= self.partitions@.len(),
                out@.len() == i,
                forall|k: int|
                    0 <= k < i ==> #[trigger] out@[k]@ == decode_utf8(self.partitions@[k].name@),
            decreases self.partitions@.len() - i,
        {
            let name = utf8_to_string(&self.partitions[i].name);
            out.push(name);
            i = i + 1;
        }
        out
    }

    /// Finds the partition called `name` by binary search over the sorted
    /// partitions.
    pub fn lookup(&self, name: &str) -> (r: Result<&PartitionUpdate, NotFound>)
        requires
            self.wf(),
        ensures
            match r {
                Ok(p) => p.name@ == encode_utf8(name@) && exists|i: int|
                    0 <= i < self.partitions@.len() && self.partitions@[i] == *p,
                Err(_) => forall|i: int|
                    0 <= i < self.partitions@.len() ==> #[trigger] self.partitions@[i].name@
                        != encode_utf8(name@),
            },
    {
        let key = name.as_bytes();
        let ghost ps = partitions_view(self.partitions@);
        let mut lo: usize = 0;
        let mut hi: usize = self.partitions.len();
        while lo < hi
            invariant
                self.wf(),
                ps == partitions_view(self.partitions@),
                key@ == encode_utf8(name@),
                lo <= hi <= self.partitions@.len(),
                forall|i: int|
                    0 <= i < lo ==> #[trigger] self.partitions@[i].name@ != key@,
                forall|i: int|
                    hi <= i < self.partitions@.len() ==> #[trigger] self.partitions@[i].name@
                        != key@,
            decreases hi - lo,
        {
            let mid = lo + (hi - lo) / 2;
            let c = compare_names(self.partitions[mid].name.as_slice(), key);
            if c == 0 {
                proof {
                    lemma_lex_cmp_props(self.partitions@[mid as int].name@, key@);
                }
                return Ok(&self.partitions[mid]);
            } else if c < 0 {
                proof {
                    lemma_lex_cmp_props(self.partitions@[mid as int].name@, key@);
                    assert forall|i: int| 0 <= i <= mid implies #[trigger] self.partitions@[i].name@
                        != key@ by {
                        if i < mid {
                            assert(ps[i].name == self.partitions@[i].name@);
                            assert(ps[mid as int].name == self.partitions@[mid as int].name@);
                            assert(lex_cmp(ps[i].name, ps[mid as int].name) <= 0);
                        }
                    }
                }
                lo = mid + 1;
            } else {
                proof {
                    lemma_lex_cmp_props(self.partitions@[mid as int].name@, key@);
                    assert forall|i: int|
                        mid <= i < self.partitions@.len() implies #[trigger] self.partitions@[i].name@
                        != key@ by {
                        if i > mid {
                            assert(ps[i].name == self.partitions@[i].name@);
                            assert(ps[mid as int].name == self.partitions@[mid as int].name@);
                            assert(lex_cmp(ps[mid as int].name, ps[i].name) <= 0);
                        }
                    }
                }
                hi = mid;
            }
        }
        Err(NotFound)
    }
}

} // verus!
