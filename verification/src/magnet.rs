//! Building the peer-discovery descriptor ("magnet link") for one catalog
//! variant: the fixed tracker list, the percent-encoded display tag, and the
//! exact shape of the assembled link.
use vstd::prelude::*;

verus! {

/// One downloadable variant of a movie, as the catalog reports it.
pub struct Torrent {
    pub hash: String,
    pub quality: String,
    pub url: String,
    pub type_: String,
    pub video_codec: String,
    pub seeds: u32,
    pub peers: u32,
    pub size: String,
    pub size_bytes: u64,
}

/// What `urlencoding::encode` returns on a given string; the encoding is a
/// pure function of the characters alone.
pub uninterp spec fn url_enc(s: Seq<char>) -> Seq<char>;

/// A character that percent-encoded output may contain: one of the
/// unreserved bytes that the encoder copies through, or the escape
/// character `%` that starts a hexadecimal pair.
pub open spec fn enc_out_char(c: char) -> bool {
    ('0' <= c && c <= '9') || ('A' <= c && c <= 'Z') || ('a' <= c && c <= 'z') || c == '-' || c
        == '.' || c == '_' || c == '~' || c == '%'
}

/// Relies on `urlencoding::encode`: it percent-encodes every byte of the
/// UTF-8 text except alphanumerics and `-`, `_`, `.`, `~`, writing `%` and
/// two uppercase hexadecimal digits for each escaped byte, so the output
/// holds only unreserved characters and `%`, and depends on the input
/// characters alone.
#[verifier::external_body]
fn encode_component(s: &str) -> (r: String)
    ensures
        r@ == url_enc(s@),
        forall|i: int| 0 <= i < r@.len() ==> enc_out_char(#[trigger] r@[i]),
        s@.len() == 0 ==> r@.len() == 0,
{
    urlencoding::encode(s).into_owned()
}

/// The fixed list of eight well-known tracker endpoints, in the order they
/// appear in every descriptor.
pub open spec fn spec_trackers() -> Seq<Seq<char>> {
    seq![
        "udp://open.demonii.com:1337/announce"@,
        "udp://tracker.openbittorrent.com:80"@,
        "udp://tracker.coppersurfer.tk:6969"@,
        "udp://glotorrents.pw:6969/announce"@,
        "udp://tracker.opentrackr.org:1337/announce"@,
        "udp://torrent.gresille.org:80/announce"@,
        "udp://p4p.arenabg.com:1337"@,
        "udp://tracker.leechers-paradise.org:6969"@,
    ]
}

/// Holds when no character of `s` is the `&` separator.
pub open spec fn no_amp(s: Seq<char>) -> bool {
    forall|i: int| 0 <= i < s.len() ==> s[i] != '&'
}

/// The pieces joined with `&`, in order: `p0 & p1 & ... & pn`.
pub open spec fn join_amp(ps: Seq<Seq<char>>) -> Seq<char>
    decreases ps.len(),
{
    if ps.len() == 0 {
        Seq::empty()
    } else if ps.len() == 1 {
        ps[0]
    } else {
        ps[0] + seq!['&'] + join_amp(ps.skip(1))
    }
}

/// The text split at each `&`: the pieces between separators, in order.
/// An empty text is one empty piece; `n` separators give `n + 1` pieces.
pub open spec fn amp_split(s: Seq<char>) -> Seq<Seq<char>>
    decreases s.len(),
{
    if s.len() == 0 {
        seq![Seq::<char>::empty()]
    } else if s[0] == '&' {
        seq![Seq::<char>::empty()] + amp_split(s.skip(1))
    } else {
        let rest = amp_split(s.skip(1));
        seq![seq![s[0]] + rest[0]] + rest.skip(1)
    }
}

proof fn lemma_amp_split_len(s: Seq<char>)
    ensures
        amp_split(s).len() >= 1,
    decreases s.len(),
{
    if s.len() != 0 {
        lemma_amp_split_len(s.skip(1));
    }
}

/// A piece without a separator splits into itself alone.
proof fn lemma_amp_split_whole(s: Seq<char>)
    requires
        no_amp(s),
    ensures
        amp_split(s) == seq![s],
    decreases s.len(),
{
    if s.len() == 0 {
        assert(amp_split(s) =~~= seq![s]);
    } else {
        assert(s[0] != '&');
        assert(no_amp(s.skip(1)));
        lemma_amp_split_whole(s.skip(1));
        let rest = amp_split(s.skip(1));
        assert(rest == seq![s.skip(1)]);
        assert(rest.skip(1) =~= Seq::<Seq<char>>::empty());
        assert(seq![s[0]] + rest[0] =~= s);
        assert(amp_split(s) == seq![seq![s[0]] + rest[0]] + rest.skip(1));
        assert(amp_split(s) =~= seq![s]);
    }
}

/// Splitting `a & b` peels off `a` when `a` holds no separator.
proof fn lemma_amp_split_step(a: Seq<char>, b: Seq<char>)
    requires
        no_amp(a),
    ensures
        amp_split(a + seq!['&'] + b) == seq![a] + amp_split(b),
    decreases a.len(),
{
    let s = a + seq!['&'] + b;
    if a.len() == 0 {
        assert(s.skip(1) =~= b);
        assert(amp_split(s) =~~= seq![a] + amp_split(b));
    } else {
        assert(a[0] != '&');
        assert(s[0] == a[0] && s[0] != '&');
        assert(no_amp(a.skip(1)));
        assert(s.skip(1) =~= a.skip(1) + seq!['&'] + b);
        lemma_amp_split_step(a.skip(1), b);
        lemma_amp_split_len(b);
        let rest = amp_split(s.skip(1));
        assert(rest == seq![a.skip(1)] + amp_split(b));
        assert(rest[0] == a.skip(1));
        assert(seq![s[0]] + rest[0] =~= a);
        assert(rest.skip(1) =~= amp_split(b));
        assert(amp_split(s) == seq![seq![s[0]] + rest[0]] + rest.skip(1));
        assert(amp_split(s) =~= seq![a] + amp_split(b));
    }
}

/// Splitting on `&` undoes joining with `&`, whenever no piece holds a
/// separator of its own.
pub proof fn lemma_amp_split_join(ps: Seq<Seq<char>>)
    requires
        ps.len() >= 1,
        forall|i: int| 0 <= i < ps.len() ==> no_amp(#[trigger] ps[i]),
    ensures
        amp_split(join_amp(ps)) == ps,
    decreases ps.len(),
{
    if ps.len() == 1 {
        lemma_amp_split_whole(ps[0]);
        assert(amp_split(join_amp(ps)) =~= ps);
    } else {
        lemma_amp_split_join(ps.skip(1));
        lemma_amp_split_step(ps[0], join_amp(ps.skip(1)));
        assert(amp_split(join_amp(ps)) =~= seq![ps[0]] + ps.skip(1));
        assert(seq![ps[0]] + ps.skip(1) =~= ps);
    }
}

/// Joining one more piece appends one separator and the piece.
proof fn lemma_join_amp_push(ps: Seq<Seq<char>>, p: Seq<char>)
    requires
        ps.len() >= 1,
    ensures
        join_amp(ps.push(p)) == join_amp(ps) + seq!['&'] + p,
    decreases ps.len(),
{
    if ps.len() == 1 {
        assert(ps.push(p)[0] == ps[0]);
        assert(ps.push(p).skip(1) =~= seq![p]);
        assert(join_amp(seq![p]) == p);
        assert(join_amp(ps) == ps[0]);
        assert(join_amp(ps.push(p)) =~= join_amp(ps) + seq!['&'] + p);
    } else {
        assert(ps.push(p).len() == ps.len() + 1 >= 3);
        assert(ps.push(p)[0] == ps[0]);
        assert(ps.push(p).skip(1) =~= ps.skip(1).push(p));
        lemma_join_amp_push(ps.skip(1), p);
        assert(join_amp(ps.push(p)) == ps[0] + seq!['&'] + join_amp(ps.skip(1).push(p)));
        assert(join_amp(ps.push(p)) =~= join_amp(ps) + seq!['&'] + p);
    }
}

/// The pieces of one descriptor: the `xt` part carrying the content hash,
/// the `dn` part carrying the encoded display tag, and one `tr` part per
/// fixed tracker.
pub open spec fn magnet_pieces(hash: Seq<char>, display: Seq<char>) -> Seq<Seq<char>> {
    seq!["magnet:?xt=urn:btih:"@ + hash, "dn="@ + url_enc(display)] + spec_trackers().map_values(
        |t: Seq<char>| "tr="@ + url_enc(t),
    )
}

/// The whole descriptor: its pieces joined with `&`.
pub open spec fn spec_magnet_link(hash: Seq<char>, display: Seq<char>) -> Seq<char> {
    join_amp(magnet_pieces(hash, display))
}

impl Torrent {
    /// The fixed tracker endpoints as owned strings.
    pub fn get_trackers() -> (r: Vec<String>)
        ensures
            r@.len() == spec_trackers().len(),
            forall|i: int| 0 <= i < r@.len() ==> #[trigger] r@[i]@ == spec_trackers()[i],
    {
        let mut v: Vec<String> = Vec::new();
        v.push(String::from_str("udp://open.demonii.com:1337/announce"));
        v.push(String::from_str("udp://tracker.openbittorrent.com:80"));
        v.push(String::from_str("udp://tracker.coppersurfer.tk:6969"));
        v.push(String::from_str("udp://glotorrents.pw:6969/announce"));
        v.push(String::from_str("udp://tracker.opentrackr.org:1337/announce"));
        v.push(String::from_str("udp://torrent.gresille.org:80/announce"));
        v.push(String::from_str("udp://p4p.arenabg.com:1337"));
        v.push(String::from_str("udp://tracker.leechers-paradise.org:6969"));
        proof {
            assert forall|i: int| 0 <= i < v@.len() implies #[trigger] v@[i]@
                == spec_trackers()[i] by {
                assert(v@[0]@ == spec_trackers()[0]);
                assert(v@[1]@ == spec_trackers()[1]);
                assert(v@[2]@ == spec_trackers()[2]);
                assert(v@[3]@ == spec_trackers()[3]);
                assert(v@[4]@ == spec_trackers()[4]);
                assert(v@[5]@ == spec_trackers()[5]);
                assert(v@[6]@ == spec_trackers()[6]);
                assert(v@[7]@ == spec_trackers()[7]);
            }
        }
        v
    }

    /// Assembles the peer-discovery descriptor for this variant under the
    /// given display name. The link is the `&`-joined pieces of
    /// `magnet_pieces`; it always starts with the fixed `xt` prefix and the
    /// content hash, and when the hash holds no `&` of its own, splitting
    /// the link on `&` gives back exactly those pieces: the `xt` part, the
    /// `dn` part, and one `tr=` part per fixed tracker.
    pub fn get_magnet_link(&self, name: &str) -> (r: String)
        ensures
            r@ == spec_magnet_link(self.hash@, name@ + self.quality@),
            r@.take(("magnet:?xt=urn:btih:"@ + self.hash@).len() as int) == "magnet:?xt=urn:btih:"@
                + self.hash@,
            no_amp(self.hash@) ==> amp_split(r@) == magnet_pieces(
                self.hash@,
                name@ + self.quality@,
            ),
    {
        let ghost pieces = magnet_pieces(self.hash@, name@ + self.quality@);
        let mut display = String::from_str(name);
        display.append(self.quality.as_str());
        let dn = encode_component(display.as_str());
        let mut out = String::from_str("magnet:?xt=urn:btih:");
        out.append(self.hash.as_str());
        out.append("&");
        out.append("dn=");
        out.append(dn.as_str());
        proof {
            reveal_strlit("&");
            assert("&"@ =~= seq!['&']);
            assert(pieces.take(2).skip(1) =~= seq![pieces[1]]);
            assert(join_amp(seq![pieces[1]]) == pieces[1]);
            assert(out@ =~= join_amp(pieces.take(2)));
        }
        let trackers = Torrent::get_trackers();
        let mut i: usize = 0;
        while i < trackers.len()
            invariant
                trackers@.len() == spec_trackers().len() == 8,
                forall|j: int| 0 <= j < 8 ==> #[trigger] trackers@[j]@ == spec_trackers()[j],
                0 <= i <= 8,
                pieces == magnet_pieces(self.hash@, name@ + self.quality@),
                out@ == join_amp(pieces.take(2 + i as int)),
                forall|j: int|
                    0 <= j < i ==> no_amp(#[trigger] url_enc(spec_trackers()[j])),
            decreases 8 - i,
        {
            out.append("&");
            out.append("tr=");
            let enc = encode_component(trackers[i].as_str());
            out.append(enc.as_str());
            proof {
                reveal_strlit("&");
                assert("&"@ =~= seq!['&']);
                assert(pieces[2 + i as int] == "tr="@ + url_enc(spec_trackers()[i as int]));
                lemma_join_amp_push(pieces.take(2 + i as int), pieces[2 + i as int]);
                assert(pieces.take(2 + i as int).push(pieces[2 + i as int]) =~= pieces.take(
                    3 + i as int,
                ));
                assert(out@ =~= join_amp(pieces.take(3 + i as int)));
                assert forall|j: int|
                    0 <= j < i + 1 implies no_amp(#[trigger] url_enc(spec_trackers()[j])) by {
                    if j == i as int {
                        assert(enc@ == url_enc(spec_trackers()[j]));
                        assert forall|k: int|
                            0 <= k < url_enc(spec_trackers()[j]).len() implies url_enc(
                            spec_trackers()[j],
                        )[k] != '&' by {
                            assert(enc_out_char(enc@[k]));
                        }
                    }
                }
            }
            i = i + 1;
        }
        proof {
            assert(pieces.take(10) =~= pieces);
            let prefix = "magnet:?xt=urn:btih:"@;
            assert(join_amp(pieces) == pieces[0] + seq!['&'] + join_amp(pieces.skip(1)));
            assert(out@.take((prefix + self.hash@).len() as int) =~= prefix + self.hash@);
            if no_amp(self.hash@) {
                reveal_strlit("magnet:?xt=urn:btih:");
                reveal_strlit("dn=");
                reveal_strlit("tr=");
                assert forall|j: int| 0 <= j < pieces.len() implies no_amp(
                    #[trigger] pieces[j],
                ) by {
                    if j == 0 {
                        assert(no_amp(prefix));
                        assert(no_amp(prefix + self.hash@));
                    } else if j == 1 {
                        assert forall|k: int|
                            0 <= k < url_enc(name@ + self.quality@).len() implies url_enc(
                            name@ + self.quality@,
                        )[k] != '&' by {
                            assert(enc_out_char(dn@[k]));
                        }
                        assert(no_amp("dn="@ + url_enc(name@ + self.quality@)));
                    } else {
                        assert(pieces[j] == "tr="@ + url_enc(spec_trackers()[j - 2]));
                        assert(no_amp(url_enc(spec_trackers()[j - 2])));
                        assert(no_amp("tr="@ + url_enc(spec_trackers()[j - 2])));
                    }
                }
                lemma_amp_split_join(pieces);
            }
        }
        out
    }
}

} // verus!
