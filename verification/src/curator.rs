//! Reducing a transfer's output folder to one playable file: directories
//! and files without a recognized media extension are dropped, a single
//! remaining video wins outright, and otherwise the first largest kept
//! file is the fallback choice.
use vstd::prelude::*;

verus! {

/// One entry of the output folder, as plain values: its file name,
/// whether it is a subdirectory, and its byte size.
pub struct FsEntry {
    pub name: String,
    pub is_dir: bool,
    pub size: u64,
}

/// Curation found no eligible file at all.
#[derive(Debug, PartialEq, Eq, Clone, Copy)]
pub enum CurationError {
    NoMediaFound,
}

/// The recognized video container extensions.
pub open spec fn spec_video_exts() -> Seq<Seq<char>> {
    seq!["mp4"@, "mkv"@, "avi"@, "flv"@, "wmv"@, "mov"@]
}

/// The recognized subtitle extension.
pub open spec fn spec_subtitle_exts() -> Seq<Seq<char>> {
    seq!["srt"@]
}

/// The index of the last `.` in `name`, or `-1` when there is none.
pub open spec fn last_dot(name: Seq<char>) -> int
    decreases name.len(),
{
    if name.len() == 0 {
        -1
    } else if name.last() == '.' {
        name.len() - 1
    } else {
        last_dot(name.drop_last())
    }
}

/// The extension of a file name: the characters after the last `.`,
/// provided that dot is not the leading character (`archive.tar` has
/// extension `tar`; `README` and `.hidden` have none), as a path library
/// reads it.
pub open spec fn spec_ext(name: Seq<char>) -> Option<Seq<char>> {
    let d = last_dot(name);
    if d >= 1 {
        Some(name.skip(d + 1))
    } else {
        None
    }
}

/// A file entry that curation keeps: not a directory, and its extension
/// is a recognized video or subtitle extension.
pub open spec fn keep_entry(e: FsEntry) -> bool {
    &&& !e.is_dir
    &&& spec_ext(e.name@) matches Some(x) && (spec_video_exts().contains(x)
        || spec_subtitle_exts().contains(x))
}

/// A file entry with a recognized video extension.
pub open spec fn video_entry(e: FsEntry) -> bool {
    &&& !e.is_dir
    &&& spec_ext(e.name@) matches Some(x) && spec_video_exts().contains(x)
}

/// The entries that survive the pruning pass, in order.
pub open spec fn kept_seq(s: Seq<FsEntry>) -> Seq<FsEntry> {
    s.filter(|e: FsEntry| keep_entry(e))
}

/// The surviving entries with a video extension, in order.
pub open spec fn video_seq(s: Seq<FsEntry>) -> Seq<FsEntry> {
    s.filter(|e: FsEntry| video_entry(e))
}

/// The position of the last `.` of the name, scanned from the end.
fn last_dot_index(name: &str) -> (r: Option<usize>)
    ensures
        r matches Some(i) ==> i as int == last_dot(name@) && i < name@.len(),
        r is None ==> last_dot(name@) == -1,
{
    let n = name.unicode_len();
    let mut i = n;
    while i > 0
        invariant
            i <= n,
            n == name@.len(),
            forall|j: int| i <= j < n ==> name@[j] != '.',
        decreases i,
    {
        let ch = name.get_char(i - 1);
        if ch == '.' {
            proof {
                lemma_last_dot(name@);
            }
            return Some(i - 1);
        }
        i = i - 1;
    }
    proof {
        lemma_last_dot(name@);
    }
    None
}

/// Reads the name's extension and tells whether it is a recognized video
/// extension, and whether it is the subtitle extension.
fn classify_name(name: &str) -> (r: (bool, bool))
    ensures
        r.0 == (spec_ext(name@) matches Some(x) && spec_video_exts().contains(x)),
        r.1 == (spec_ext(name@) matches Some(x) && spec_subtitle_exts().contains(x)),
{
    proof {
        reveal_strlit("mp4");
        reveal_strlit("mkv");
        reveal_strlit("avi");
        reveal_strlit("flv");
        reveal_strlit("wmv");
        reveal_strlit("mov");
        reveal_strlit("srt");
    }
    let n = name.unicode_len();
    let d_opt = last_dot_index(name);
    match d_opt {
        None => (false, false),
        Some(d) => {
            if d == 0 {
                (false, false)
            } else if n - d - 1 != 3 {
                proof {
                    let x = spec_ext(name@)->0;
                    assert(x.len() == n - d - 1);
                    assert(!spec_video_exts().contains(x));
                    assert(!spec_subtitle_exts().contains(x));
                }
                (false, false)
            } else {
                let c1 = name.get_char(d + 1);
                let c2 = name.get_char(d + 2);
                let c3 = name.get_char(d + 3);
                let video = (c1 == 'm' && c2 == 'p' && c3 == '4') || (c1 == 'm' && c2 == 'k' && c3
                    == 'v') || (c1 == 'a' && c2 == 'v' && c3 == 'i') || (c1 == 'f' && c2 == 'l'
                    && c3 == 'v') || (c1 == 'w' && c2 == 'm' && c3 == 'v') || (c1 == 'm' && c2
                    == 'o' && c3 == 'v');
                let sub = c1 == 's' && c2 == 'r' && c3 == 't';
                proof {
                    let x = spec_ext(name@)->0;
                    assert(x =~= seq![c1, c2, c3]);
                    if video {
                        if c1 == 'm' && c2 == 'p' && c3 == '4' {
                            assert(spec_video_exts()[0] =~= x);
                        } else if c1 == 'm' && c2 == 'k' && c3 == 'v' {
                            assert(spec_video_exts()[1] =~= x);
                        } else if c1 == 'a' && c2 == 'v' && c3 == 'i' {
                            assert(spec_video_exts()[2] =~= x);
                        } else if c1 == 'f' && c2 == 'l' && c3 == 'v' {
                            assert(spec_video_exts()[3] =~= x);
                        } else if c1 == 'w' && c2 == 'm' && c3 == 'v' {
                            assert(spec_video_exts()[4] =~= x);
                        } else {
                            assert(spec_video_exts()[5] =~= x);
                        }
                        assert(spec_video_exts().contains(x));
                    } else {
                        assert forall|k: int| 0 <= k < 6 implies spec_video_exts()[k] != x by {
                            assert(x[0] == c1 && x[1] == c2 && x[2] == c3);
                        }
                        assert(!spec_video_exts().contains(x));
                    }
                    if sub {
                        assert(spec_subtitle_exts()[0] =~= x);
                        assert(spec_subtitle_exts().contains(x));
                    } else {
                        assert(spec_subtitle_exts()[0] != x);
                        assert(!spec_subtitle_exts().contains(x));
                    }
                }
                (video, sub)
            }
        },
    }
}

/// Whether the pruning pass keeps this entry.
pub fn entry_kept(e: &FsEntry) -> (b: bool)
    ensures
        b == keep_entry(*e),
{
    if e.is_dir {
        false
    } else {
        let (video, sub) = classify_name(e.name.as_str());
        video || sub
    }
}

/// Whether this entry is a file with a recognized video extension.
pub fn entry_video(e: &FsEntry) -> (b: bool)
    ensures
        b == video_entry(*e),
{
    if e.is_dir {
        false
    } else {
        let (video, _sub) = classify_name(e.name.as_str());
        video
    }
}

/// The index of the first video entry, in listing order.
pub open spec fn first_video(s: Seq<FsEntry>) -> Option<int>
    decreases s.len(),
{
    if s.len() == 0 {
        None
    } else {
        match first_video(s.drop_last()) {
            Some(i) => Some(i),
            None => if video_entry(s.last()) {
                Some(s.len() - 1)
            } else {
                None
            },
        }
    }
}

/// The index the size fallback picks: the first kept entry whose size no
/// other kept entry exceeds (a strictly larger later entry displaces it).
pub open spec fn first_max_kept(s: Seq<FsEntry>) -> Option<int>
    decreases s.len(),
{
    if s.len() == 0 {
        None
    } else {
        let prev = first_max_kept(s.drop_last());
        if !keep_entry(s.last()) {
            prev
        } else {
            match prev {
                None => Some(s.len() - 1),
                Some(i) => if s.last().size > s[i].size {
                    Some(s.len() - 1)
                } else {
                    Some(i)
                },
            }
        }
    }
}

/// What curation resolves a folder listing to: the index of the single
/// returned file, or `NoMediaFound` when pruning leaves nothing. A single
/// remaining video wins outright; otherwise the first largest kept file
/// (video or subtitle) is the fallback.
pub open spec fn curate_spec(s: Seq<FsEntry>) -> Result<int, CurationError> {
    if kept_seq(s).len() == 0 {
        Err(CurationError::NoMediaFound)
    } else if video_seq(s).len() == 1 {
        Ok(first_video(s)->0)
    } else {
        Ok(first_max_kept(s)->0)
    }
}

/// Resolves a folder listing (already pruned or not) to the single file
/// curation returns, as an index into `entries`.
pub fn curate(entries: &Vec<FsEntry>) -> (r: Result<usize, CurationError>)
    ensures
        r matches Ok(i) ==> curate_spec(entries@) == Ok::<int, CurationError>(i as int) && i
            < entries@.len()
            && keep_entry(entries@[i as int]),
        r matches Err(e) ==> curate_spec(entries@) == Err::<int, CurationError>(e),
{
    let mut kc: usize = 0;
    let mut vc: usize = 0;
    let mut fv: Option<usize> = None;
    let mut fm: Option<usize> = None;
    let mut i: usize = 0;
    proof {
        reveal_with_fuel(Seq::<_>::filter, 1);
        assert(entries@.take(0) =~= Seq::<FsEntry>::empty());
        assert(kept_seq(Seq::<FsEntry>::empty()).len() == 0);
        assert(video_seq(Seq::<FsEntry>::empty()).len() == 0);
    }
    while i < entries.len()
        invariant
            i <= entries@.len(),
            kc <= i && vc <= i,
            kc == kept_seq(entries@.take(i as int)).len(),
            vc == video_seq(entries@.take(i as int)).len(),
            (match fv {
                Some(j) => j < i && first_video(entries@.take(i as int)) == Some(j as int)
                    && video_entry(entries@[j as int]),
                None => first_video(entries@.take(i as int)) is None,
            }),
            (match fm {
                Some(j) => j < i && first_max_kept(entries@.take(i as int)) == Some(j as int)
                    && keep_entry(entries@[j as int]),
                None => first_max_kept(entries@.take(i as int)) is None,
            }),
            vc > 0 <==> fv is Some,
            kc > 0 <==> fm is Some,
        decreases entries@.len() - i,
    {
        let kept = entry_kept(&entries[i]);
        let video = entry_video(&entries[i]);
        proof {
            reveal_with_fuel(Seq::<_>::filter, 2);
            let pre = entries@.take(i as int);
            let post = entries@.take(i as int + 1);
            assert(post.drop_last() =~= pre);
            assert(post.last() == entries@[i as int]);
            if keep_entry(entries@[i as int]) {
                assert(kept_seq(post) == kept_seq(pre).push(entries@[i as int]));
            } else {
                assert(kept_seq(post) == kept_seq(pre));
            }
            if video_entry(entries@[i as int]) {
                assert(video_seq(post) == video_seq(pre).push(entries@[i as int]));
            } else {
                assert(video_seq(post) == video_seq(pre));
            }
        }
        if video {
            vc = vc + 1;
            if fv.is_none() {
                fv = Some(i);
            }
        }
        if kept {
            kc = kc + 1;
            match fm {
                None => {
                    fm = Some(i);
                },
                Some(j) => {
                    if entries[i].size > entries[j].size {
                        fm = Some(i);
                    }
                },
            }
        }
        i = i + 1;
    }
    proof {
        assert(entries@.take(entries@.len() as int) =~= entries@);
    }
    if kc == 0 {
        Err(CurationError::NoMediaFound)
    } else if vc == 1 {
        Ok(fv.unwrap())
    } else {
        Ok(fm.unwrap())
    }
}

/// Nothing survives pruning exactly when no entry is keepable.
pub proof fn lemma_kept_empty(s: Seq<FsEntry>)
    ensures
        kept_seq(s).len() == 0 <==> (forall|j: int| 0 <= j < s.len() ==> !keep_entry(s[j])),
    decreases s.len(),
{
    reveal_with_fuel(Seq::<_>::filter, 2);
    if s.len() == 0 {
        assert(kept_seq(s) =~= Seq::<FsEntry>::empty());
    } else {
        let dl = s.drop_last();
        lemma_kept_empty(dl);
        if keep_entry(s.last()) {
            assert(kept_seq(s) == kept_seq(dl).push(s.last()));
        } else {
            assert(kept_seq(s) == kept_seq(dl));
            if kept_seq(s).len() == 0 {
                assert forall|j: int| 0 <= j < s.len() implies !keep_entry(s[j]) by {
                    if j < s.len() - 1 {
                        assert(dl[j] == s[j]);
                        assert(!keep_entry(dl[j]));
                    }
                }
            } else {
                let witness = choose|j: int| 0 <= j < dl.len() && keep_entry(dl[j]);
                assert(dl[witness] == s[witness]);
            }
        }
    }
}

/// The first-video index exists exactly when a video survives; it is a
/// video entry and nothing before it is one.
pub proof fn lemma_first_video(s: Seq<FsEntry>)
    ensures
        first_video(s) is None <==> video_seq(s).len() == 0,
        first_video(s) is None ==> (forall|j: int| 0 <= j < s.len() ==> !video_entry(s[j])),
        first_video(s) matches Some(i) ==> 0 <= i < s.len() && video_entry(s[i]) && (forall|
            j: int,
        | 0 <= j < i ==> !video_entry(s[j])),
    decreases s.len(),
{
    reveal_with_fuel(Seq::<_>::filter, 2);
    if s.len() == 0 {
        assert(video_seq(s) =~= Seq::<FsEntry>::empty());
    } else {
        let dl = s.drop_last();
        lemma_first_video(dl);
        if video_entry(s.last()) {
            assert(video_seq(s) == video_seq(dl).push(s.last()));
        } else {
            assert(video_seq(s) == video_seq(dl));
        }
        assert forall|j: int| 0 <= j < dl.len() implies dl[j] == s[j] by {}
    }
}

/// The first video entry heads the list of surviving videos.
pub proof fn lemma_first_video_head(s: Seq<FsEntry>)
    ensures
        first_video(s) matches Some(i) ==> video_seq(s).len() > 0 && s[i] == video_seq(s)[0],
    decreases s.len(),
{
    reveal_with_fuel(Seq::<_>::filter, 2);
    if s.len() != 0 {
        let dl = s.drop_last();
        lemma_first_video_head(dl);
        lemma_first_video(dl);
        if video_entry(s.last()) {
            assert(video_seq(s) == video_seq(dl).push(s.last()));
        } else {
            assert(video_seq(s) == video_seq(dl));
        }
    }
}

/// Two distinct surviving videos make the video list at least two long.
pub proof fn lemma_two_videos(s: Seq<FsEntry>, i: int, j: int)
    requires
        0 <= i < j < s.len(),
        video_entry(s[i]),
        video_entry(s[j]),
    ensures
        video_seq(s).len() >= 2,
    decreases s.len(),
{
    reveal_with_fuel(Seq::<_>::filter, 2);
    let dl = s.drop_last();
    if j == s.len() - 1 {
        lemma_first_video(dl);
        assert(dl[i] == s[i]);
        assert(video_seq(dl).len() > 0);
        assert(video_seq(s) == video_seq(dl).push(s.last()));
    } else {
        assert(dl[i] == s[i] && dl[j] == s[j]);
        lemma_two_videos(dl, i, j);
        if video_entry(s.last()) {
            assert(video_seq(s) == video_seq(dl).push(s.last()));
        } else {
            assert(video_seq(s) == video_seq(dl));
        }
    }
}

/// The fallback index exists exactly when something is kept; it points at
/// a kept entry of maximal size, and every kept entry before it is
/// strictly smaller.
pub proof fn lemma_first_max_kept(s: Seq<FsEntry>)
    ensures
        first_max_kept(s) is None <==> kept_seq(s).len() == 0,
        first_max_kept(s) matches Some(i) ==> 0 <= i < s.len() && keep_entry(s[i]) && (forall|
            j: int,
        |
            0 <= j < s.len() && keep_entry(#[trigger] s[j]) ==> s[j].size <= s[i].size) && (forall|
            j: int,
        | 0 <= j < i && keep_entry(#[trigger] s[j]) ==> s[j].size < s[i].size),
    decreases s.len(),
{
    reveal_with_fuel(Seq::<_>::filter, 2);
    if s.len() == 0 {
        assert(kept_seq(s) =~= Seq::<FsEntry>::empty());
    } else {
        let dl = s.drop_last();
        let x = s.last();
        lemma_first_max_kept(dl);
        lemma_kept_empty(dl);
        assert forall|j: int| 0 <= j < dl.len() implies dl[j] == s[j] by {}
        if keep_entry(x) {
            assert(kept_seq(s) == kept_seq(dl).push(x));
            match first_max_kept(dl) {
                None => {
                    assert(first_max_kept(s) == Some(s.len() - 1));
                    assert forall|j: int|
                        0 <= j < s.len() && keep_entry(#[trigger] s[j]) implies s[j].size
                        <= x.size by {
                        if j < s.len() - 1 {
                            assert(keep_entry(dl[j]));
                        }
                    }
                },
                Some(i) => {
                    if x.size > s[i].size {
                        assert(first_max_kept(s) == Some(s.len() - 1));
                        assert forall|j: int|
                            0 <= j < s.len() - 1 && keep_entry(#[trigger] s[j]) implies s[j].size
                            < x.size by {
                            assert(dl[j].size <= dl[i].size);
                        }
                    } else {
                        assert(first_max_kept(s) == Some(i));
                        assert forall|j: int|
                            0 <= j < s.len() && keep_entry(#[trigger] s[j]) implies s[j].size
                            <= s[i].size by {
                            if j < s.len() - 1 {
                                assert(dl[j].size <= dl[i].size);
                            }
                        }
                    }
                },
            }
        } else {
            assert(kept_seq(s) == kept_seq(dl));
            assert(first_max_kept(s) == first_max_kept(dl));
        }
    }
}

/// A list whose entries are all kept survives pruning unchanged.
proof fn lemma_kept_fixpoint(t: Seq<FsEntry>)
    requires
        forall|j: int| 0 <= j < t.len() ==> keep_entry(#[trigger] t[j]),
    ensures
        kept_seq(t) == t,
    decreases t.len(),
{
    reveal_with_fuel(Seq::<_>::filter, 2);
    if t.len() == 0 {
        assert(kept_seq(t) =~= t);
    } else {
        let dl = t.drop_last();
        assert forall|j: int| 0 <= j < dl.len() implies keep_entry(#[trigger] dl[j]) by {
            assert(dl[j] == t[j]);
        }
        lemma_kept_fixpoint(dl);
        assert(kept_seq(t) == kept_seq(dl).push(t.last()));
        assert(kept_seq(t) =~= t);
    }
}

/// Pruning removes no videos: the surviving videos of the kept list are
/// exactly the surviving videos of the whole listing.
pub proof fn lemma_video_of_kept(s: Seq<FsEntry>)
    ensures
        video_seq(kept_seq(s)) == video_seq(s),
    decreases s.len(),
{
    reveal_with_fuel(Seq::<_>::filter, 2);
    if s.len() == 0 {
        assert(kept_seq(s) =~= s);
    } else {
        let dl = s.drop_last();
        let x = s.last();
        lemma_video_of_kept(dl);
        if keep_entry(x) {
            assert(kept_seq(s) == kept_seq(dl).push(x));
            assert(kept_seq(s).drop_last() =~= kept_seq(dl));
            assert(kept_seq(s).last() == x);
            if video_entry(x) {
                assert(video_seq(kept_seq(s)) == video_seq(kept_seq(dl)).push(x));
                assert(video_seq(s) == video_seq(dl).push(x));
            } else {
                assert(video_seq(kept_seq(s)) == video_seq(kept_seq(dl)));
                assert(video_seq(s) == video_seq(dl));
            }
        } else {
            assert(!video_entry(x));
            assert(kept_seq(s) == kept_seq(dl));
            assert(video_seq(s) == video_seq(dl));
        }
    }
}

/// The size fallback picks the same entry whether it scans the whole
/// listing or only the kept entries.
pub proof fn lemma_fmk_of_kept(s: Seq<FsEntry>)
    ensures
        first_max_kept(s) is None <==> first_max_kept(kept_seq(s)) is None,
        first_max_kept(s) matches Some(i) ==> (first_max_kept(kept_seq(s)) matches Some(j) && 0
            <= i < s.len() && 0 <= j < kept_seq(s).len() && kept_seq(s)[j] == s[i]),
    decreases s.len(),
{
    reveal_with_fuel(Seq::<_>::filter, 2);
    if s.len() == 0 {
        assert(kept_seq(s) =~= s);
    } else {
        let dl = s.drop_last();
        let x = s.last();
        let k = kept_seq(s);
        let kd = kept_seq(dl);
        lemma_fmk_of_kept(dl);
        lemma_first_max_kept(dl);
        lemma_first_max_kept(kd);
        if keep_entry(x) {
            assert(k == kd.push(x));
            assert(k.drop_last() =~= kd);
            assert(k.last() == x);
            match first_max_kept(dl) {
                None => {
                    assert(first_max_kept(s) == Some(s.len() - 1));
                    assert(first_max_kept(k) == Some(k.len() - 1));
                    assert(k[k.len() - 1] == x);
                },
                Some(i) => {
                    let j = first_max_kept(kd)->0;
                    assert(kd[j] == dl[i]);
                    assert(dl[i] == s[i]);
                    assert(k[j] == kd[j]);
                    if x.size > s[i].size {
                        assert(first_max_kept(s) == Some(s.len() - 1));
                        assert(first_max_kept(k) == Some(k.len() - 1));
                    } else {
                        assert(first_max_kept(s) == Some(i));
                        assert(first_max_kept(k) == Some(j));
                    }
                },
            }
        } else {
            assert(k == kd);
            assert(first_max_kept(s) == first_max_kept(dl));
        }
    }
}

/// What resolution promises overall: it fails exactly when no entry is
/// keepable; otherwise the returned index is a kept entry, is the single
/// surviving video when exactly one remains (nothing else is a video),
/// and is otherwise the first largest kept file.
pub proof fn lemma_curate_choice(s: Seq<FsEntry>)
    ensures
        curate_spec(s) is Err <==> (forall|j: int| 0 <= j < s.len() ==> !keep_entry(s[j])),
        curate_spec(s) matches Ok(i) ==> 0 <= i < s.len() && keep_entry(s[i]),
        video_seq(s).len() == 1 ==> (curate_spec(s) matches Ok(i) ==> video_entry(s[i]) && (forall|
            j: int,
        | 0 <= j < s.len() && j != i ==> !video_entry(s[j]))),
        video_seq(s).len() != 1 ==> (curate_spec(s) matches Ok(i) ==> (forall|j: int|
            0 <= j < s.len() && keep_entry(#[trigger] s[j]) ==> s[j].size <= s[i].size) && (forall|
            j: int,
        | 0 <= j < i && keep_entry(#[trigger] s[j]) ==> s[j].size < s[i].size)),
{
    lemma_kept_empty(s);
    lemma_first_video(s);
    lemma_first_max_kept(s);
    if kept_seq(s).len() != 0 && video_seq(s).len() == 1 {
        let i = first_video(s)->0;
        assert forall|j: int| 0 <= j < s.len() && j != i implies !video_entry(s[j]) by {
            if j > i && video_entry(s[j]) {
                lemma_two_videos(s, i, j);
            }
        }
    }
}

/// Curation is idempotent: the entries it keeps survive a second pruning
/// untouched, and resolving the kept list returns the same single file
/// (or the same error) as resolving the whole listing.
pub proof fn lemma_curation_idempotent(s: Seq<FsEntry>)
    ensures
        kept_seq(kept_seq(s)) == kept_seq(s),
        curate_spec(s) is Err ==> curate_spec(kept_seq(s)) == curate_spec(s),
        curate_spec(s) matches Ok(i) ==> (curate_spec(kept_seq(s)) matches Ok(j) && 0 <= i
            < s.len() && 0 <= j < kept_seq(s).len() && kept_seq(s)[j] == s[i]),
{
    broadcast use vstd::seq_lib::group_filter_ensures;

    let k = kept_seq(s);
    assert forall|j: int| 0 <= j < k.len() implies keep_entry(#[trigger] k[j]) by {
        assert(keep_entry(s.filter(|e: FsEntry| keep_entry(e))[j]));
    }
    lemma_kept_fixpoint(k);
    lemma_video_of_kept(s);
    if kept_seq(s).len() == 0 {
        assert(curate_spec(k) == curate_spec(s));
    } else if video_seq(s).len() == 1 {
        lemma_first_video(s);
        lemma_first_video(k);
        lemma_first_video_head(s);
        lemma_first_video_head(k);
        let i = first_video(s)->0;
        let j = first_video(k)->0;
        assert(s[i] == video_seq(s)[0]);
        assert(k[j] == video_seq(k)[0]);
    } else {
        lemma_first_max_kept(s);
        lemma_fmk_of_kept(s);
    }
}

proof fn lemma_last_dot(name: Seq<char>)
    ensures
        -1 <= last_dot(name) < name.len(),
        last_dot(name) >= 0 ==> name[last_dot(name)] == '.',
        forall|j: int| last_dot(name) < j < name.len() ==> name[j] != '.',
    decreases name.len(),
{
    if name.len() != 0 && name.last() != '.' {
        lemma_last_dot(name.drop_last());
        assert forall|j: int| last_dot(name) < j < name.len() implies name[j] != '.' by {
            if j < name.len() - 1 {
                assert(name.drop_last()[j] != '.');
            }
        }
    }
}

} // verus!
