//! Release kinds and the parsing of a user-typed, comma-separated kind list.

use vstd::prelude::*;

use crate::text::{
    find_char, find_char_str, lemma_find_char, matches_name, matches_norm, spec_trim, trim_str,
};

verus! {

/// The kinds of release the catalog distinguishes.
#[derive(Clone, Copy, Debug, PartialEq, Eq, Structural, Hash)]
pub enum ReleaseKind {
    Album,
    Single,
    AppearsOn,
    Compilation,
}

impl ReleaseKind {
    /// Every kind, in display order.
    pub fn all_kinds() -> (r: Vec<ReleaseKind>)
        ensures
            r@ == seq![
                ReleaseKind::Album,
                ReleaseKind::Single,
                ReleaseKind::AppearsOn,
                ReleaseKind::Compilation,
            ],
    {
        let mut v: Vec<ReleaseKind> = Vec::new();
        v.push(ReleaseKind::Album);
        v.push(ReleaseKind::Single);
        v.push(ReleaseKind::AppearsOn);
        v.push(ReleaseKind::Compilation);
        proof {
            assert(v@ =~= seq![
                ReleaseKind::Album,
                ReleaseKind::Single,
                ReleaseKind::AppearsOn,
                ReleaseKind::Compilation,
            ]);
        }
        v
    }
}

/// The canonical name of a kind, character by character.
pub open spec fn kind_name(k: ReleaseKind) -> Seq<char> {
    match k {
        ReleaseKind::Album => seq!['a', 'l', 'b', 'u', 'm'],
        ReleaseKind::Single => seq!['s', 'i', 'n', 'g', 'l', 'e'],
        ReleaseKind::AppearsOn => seq!['a', 'p', 'p', 'e', 'a', 'r', 's', '_', 'o', 'n'],
        ReleaseKind::Compilation => seq![
            'c', 'o', 'm', 'p', 'i', 'l', 'a', 't', 'i', 'o', 'n',
        ],
    }
}

/// The kind names as string literals are exactly `kind_name`.
pub proof fn lemma_kind_name_literals()
    ensures
        "album"@ == kind_name(ReleaseKind::Album),
        "single"@ == kind_name(ReleaseKind::Single),
        "appears_on"@ == kind_name(ReleaseKind::AppearsOn),
        "compilation"@ == kind_name(ReleaseKind::Compilation),
        "all"@ == seq!['a', 'l', 'l'],
{
    reveal_strlit("album");
    reveal_strlit("single");
    reveal_strlit("appears_on");
    reveal_strlit("compilation");
    reveal_strlit("all");
    assert("album"@ =~= kind_name(ReleaseKind::Album));
    assert("single"@ =~= kind_name(ReleaseKind::Single));
    assert("appears_on"@ =~= kind_name(ReleaseKind::AppearsOn));
    assert("compilation"@ =~= kind_name(ReleaseKind::Compilation));
    assert("all"@ =~= seq!['a', 'l', 'l']);
}

/// Position of a kind in display order.
pub open spec fn kind_rank(k: ReleaseKind) -> int {
    match k {
        ReleaseKind::Album => 0,
        ReleaseKind::Single => 1,
        ReleaseKind::AppearsOn => 2,
        ReleaseKind::Compilation => 3,
    }
}

/// Decides `kind_rank`.
pub fn rank_of(k: ReleaseKind) -> (r: u8)
    ensures
        r == kind_rank(k),
{
    match k {
        ReleaseKind::Album => 0,
        ReleaseKind::Single => 1,
        ReleaseKind::AppearsOn => 2,
        ReleaseKind::Compilation => 3,
    }
}

/// Strictly ascending by rank, hence free of repeats.
pub open spec fn kinds_sorted(s: Seq<ReleaseKind>) -> bool {
    forall|i: int, j: int|
        0 <= i < j < s.len() ==> kind_rank(#[trigger] s[i]) < kind_rank(#[trigger] s[j])
}

/// A set of release kinds, kept sorted in display order with no repeats.
#[derive(Debug)]
pub struct ReleaseKinds {
    kinds: Vec<ReleaseKind>,
}

impl ReleaseKinds {
    /// The kinds held, in display order.
    pub closed spec fn seq_view(&self) -> Seq<ReleaseKind> {
        self.kinds@
    }

    /// The set of kinds held: exactly the members of the display sequence.
    pub open spec fn set_view(&self) -> Set<ReleaseKind> {
        self.seq_view().to_set()
    }

    /// Sorted strictly by rank, hence free of repeats.
    pub open spec fn wf(&self) -> bool {
        kinds_sorted(self.seq_view())
    }

    /// The empty set of kinds.
    pub fn new() -> (r: Self)
        ensures
            r.wf(),
            r.set_view() == Set::<ReleaseKind>::empty(),
            r.seq_view() == Seq::<ReleaseKind>::empty(),
    {
        let r = ReleaseKinds { kinds: Vec::new() };
        proof {
            assert(r.set_view() =~= Set::<ReleaseKind>::empty());
        }
        r
    }

    /// Adds a kind, keeping order and uniqueness.
    pub fn insert(&mut self, k: ReleaseKind)
        requires
            old(self).wf(),
        ensures
            final(self).wf(),
            final(self).set_view() == old(self).set_view().insert(k),
    {
        let ghost pre = self.kinds@;
        let n = self.kinds.len();
        let mut p: usize = 0;
        while p < n && rank_of(self.kinds[p]) < rank_of(k)
            invariant
                0 <= p <= n,
                n == self.kinds@.len(),
                self.kinds@ == pre,
                forall|t: int| 0 <= t < p as int ==> kind_rank(#[trigger] pre[t]) < kind_rank(k),
            decreases n - p,
        {
            p = p + 1;
        }
        if p < n && rank_of(self.kinds[p]) == rank_of(k) {
            proof {
                assert(pre[p as int] == k) by {
                    assert(kind_rank(pre[p as int]) == kind_rank(k));
                }
                assert(pre.to_set().insert(k) =~= pre.to_set()) by {
                    assert(pre.contains(k));
                }
            }
            return ;
        }
        self.kinds.insert(p, k);
        proof {
            let post = self.kinds@;
            assert(post == pre.insert(p as int, k));
            assert forall|i: int, j: int|
                0 <= i < j < post.len() implies kind_rank(#[trigger] post[i]) < kind_rank(
                #[trigger] post[j],
            ) by {
                if j < p as int {
                } else if i > p as int {
                    assert(post[i] == pre[i - 1] && post[j] == pre[j - 1]);
                } else if j == p as int {
                    assert(post[i] == pre[i] && post[j] == k);
                } else if i == p as int {
                    assert(post[i] == k && post[j] == pre[j - 1]);
                    assert(j - 1 >= p as int);
                    assert(!(kind_rank(pre[p as int]) < kind_rank(k)));
                    assert(kind_rank(pre[p as int]) != kind_rank(k)) by {
                        if kind_rank(pre[p as int]) == kind_rank(k) {
                            assert(pre[p as int] == k);
                        }
                    }
                    if j - 1 > p as int {
                        assert(kind_rank(pre[p as int]) < kind_rank(pre[j - 1]));
                    }
                } else {
                    assert(post[i] == pre[i] && post[j] == pre[j - 1]);
                    assert(i < p as int && j - 1 >= p as int);
                    if j - 1 > p as int {
                        assert(kind_rank(pre[i]) < kind_rank(pre[j - 1])) by {
                            assert(kind_rank(pre[i]) < kind_rank(k));
                            assert(!(kind_rank(pre[p as int]) < kind_rank(k)));
                            assert(kind_rank(pre[p as int]) < kind_rank(pre[j - 1]));
                        }
                    } else {
                        assert(kind_rank(pre[i]) < kind_rank(k));
                    }
                }
            }
            assert(post.to_set() =~= pre.to_set().insert(k)) by {
                assert(forall|x: ReleaseKind| post.contains(x) ==> pre.contains(x) || x == k) by {
                    assert(forall|t: int|
                        0 <= t < post.len() && t != p as int ==> post[t] == if t < p as int {
                            pre[t]
                        } else {
                            pre[t - 1]
                        });
                }
                assert(forall|x: ReleaseKind| pre.contains(x) ==> post.contains(x)) by {
                    assert(forall|t: int|
                        0 <= t < pre.len() ==> #[trigger] pre[t] == if t < p as int {
                            post[t]
                        } else {
                            post[t + 1]
                        });
                }
                assert(post[p as int] == k);
                assert(post.contains(k));
            }
        }
    }

    /// The kinds, smallest rank first; the set in its display order.
    pub fn iter(&self) -> (r: Vec<ReleaseKind>)
        ensures
            r@ == self.seq_view(),
    {
        let mut out: Vec<ReleaseKind> = Vec::new();
        let mut i: usize = 0;
        while i < self.kinds.len()
            invariant
                0 <= i <= self.kinds@.len(),
                out@ =~= self.kinds@.subrange(0, i as int),
            decreases self.kinds@.len() - i,
        {
            out.push(self.kinds[i]);
            i = i + 1;
        }
        proof {
            assert(out@ =~= self.kinds@);
        }
        out
    }

    /// How many kinds are held.
    pub fn len(&self) -> (r: usize)
        ensures
            r == self.seq_view().len(),
    {
        self.kinds.len()
    }
}

impl Default for ReleaseKinds {
    /// The default selection: albums only.
    fn default() -> (r: Self)
        ensures
            r.wf(),
            r.set_view() == Set::<ReleaseKind>::empty().insert(ReleaseKind::Album),
            r.seq_view() == seq![ReleaseKind::Album],
    {
        let mut v: Vec<ReleaseKind> = Vec::new();
        v.push(ReleaseKind::Album);
        let r = ReleaseKinds { kinds: v };
        proof {
            assert(r.seq_view() =~= seq![ReleaseKind::Album]);
            assert(r.set_view() =~= Set::<ReleaseKind>::empty().insert(ReleaseKind::Album)) by {
                assert(r.seq_view()[0] == ReleaseKind::Album);
                assert(forall|x: ReleaseKind|
                    r.seq_view().contains(x) <==> x == ReleaseKind::Album);
            }
        }
        r
    }
}

/// Every kind at once, the meaning of the word `all` in a kind list.
pub open spec fn all_kinds_set() -> Set<ReleaseKind> {
    Set::empty().insert(ReleaseKind::Album).insert(ReleaseKind::Single).insert(
        ReleaseKind::AppearsOn,
    ).insert(ReleaseKind::Compilation)
}

/// The kinds a single trimmed list segment names: one kind, every kind for
/// `all`, or none at all. Matching folds ASCII case and treats `-` as `_`.
pub open spec fn seg_kinds(seg: Seq<char>) -> Option<Set<ReleaseKind>> {
    if matches_norm(seg, seq!['a', 'l', 'l']) {
        Option::Some(all_kinds_set())
    } else if matches_norm(seg, kind_name(ReleaseKind::Album)) {
        Option::Some(Set::empty().insert(ReleaseKind::Album))
    } else if matches_norm(seg, kind_name(ReleaseKind::Single)) {
        Option::Some(Set::empty().insert(ReleaseKind::Single))
    } else if matches_norm(seg, kind_name(ReleaseKind::AppearsOn)) {
        Option::Some(Set::empty().insert(ReleaseKind::AppearsOn))
    } else if matches_norm(seg, kind_name(ReleaseKind::Compilation)) {
        Option::Some(Set::empty().insert(ReleaseKind::Compilation))
    } else {
        Option::None
    }
}

/// The outcomes of parsing a kind list.
pub enum KindsParse {
    Parsed(Set<ReleaseKind>),
    EmptyInput,
    EmptySegment,
    BadSegment(Seq<char>),
}

/// Parses a non-empty comma-separated kind list, segment by segment: the
/// first empty or unrecognised segment decides the outcome, and otherwise
/// the named kind sets are united.
pub open spec fn spec_parse_list(s: Seq<char>) -> KindsParse
    decreases s.len(),
{
    let c = find_char(s, ',');
    let head = if !(0 <= c < s.len()) {
        spec_trim(s)
    } else {
        spec_trim(s.subrange(0, c))
    };
    if head.len() == 0 {
        KindsParse::EmptySegment
    } else {
        match seg_kinds(head) {
            Option::None => KindsParse::BadSegment(head),
            Option::Some(ks) => if !(0 <= c < s.len()) {
                KindsParse::Parsed(ks)
            } else {
                match spec_parse_list(s.subrange(c + 1, s.len() as int)) {
                    KindsParse::Parsed(rest) => KindsParse::Parsed(ks.union(rest)),
                    e => e,
                }
            },
        }
    }
}

/// The segment walk never yields the whole-input-empty outcome; that one is
/// reserved to `spec_parse_kinds`.
pub proof fn lemma_parse_list_no_empty_input(s: Seq<char>)
    ensures
        !(spec_parse_list(s) is EmptyInput),
    decreases s.len(),
{
    let c = find_char(s, ',');
    if 0 <= c < s.len() {
        lemma_parse_list_no_empty_input(s.subrange(c + 1, s.len() as int));
    }
}

/// What parsing a user-typed kind list yields: a rejection of all-whitespace
/// input, or the outcome of the segment walk.
pub open spec fn spec_parse_kinds(s: Seq<char>) -> KindsParse {
    if spec_trim(s).len() == 0 {
        KindsParse::EmptyInput
    } else {
        spec_parse_list(s)
    }
}

/// The message rejecting an unrecognised segment.
pub open spec fn invalid_msg(seg: Seq<char>) -> Seq<char> {
    "invalid value '"@ + seg + "' for --type (allowed: album, single, appears_on, compilation, all)"@
}

/// Classifies one trimmed segment, mirroring `seg_kinds`.
fn classify_segment(seg: &str) -> (r: Option<Option<ReleaseKind>>)
    ensures
        match r {
            Option::Some(Option::None) => seg_kinds(seg@) == Option::Some(all_kinds_set()),
            Option::Some(Option::Some(k)) => seg_kinds(seg@) == Option::Some(
                Set::empty().insert(k),
            ),
            Option::None => seg_kinds(seg@) is None,
        },
{
    proof {
        lemma_kind_name_literals();
    }
    if matches_name(seg, "all") {
        Option::Some(Option::None)
    } else if matches_name(seg, "album") {
        Option::Some(Option::Some(ReleaseKind::Album))
    } else if matches_name(seg, "single") {
        Option::Some(Option::Some(ReleaseKind::Single))
    } else if matches_name(seg, "appears_on") {
        Option::Some(Option::Some(ReleaseKind::AppearsOn))
    } else if matches_name(seg, "compilation") {
        Option::Some(Option::Some(ReleaseKind::Compilation))
    } else {
        Option::None
    }
}

/// Builds the rejection message for an unrecognised segment.
fn invalid_msg_exec(seg: &str) -> (r: String)
    ensures
        r@ == invalid_msg(seg@),
{
    let mut e = "invalid value '".to_owned();
    e.append(seg);
    e.append("' for --type (allowed: album, single, appears_on, compilation, all)");
    e
}

/// Walks the comma-separated segments of `s`, mirroring `spec_parse_list`.
fn parse_list(s: &str) -> (r: Result<ReleaseKinds, String>)
    ensures
        match spec_parse_list(s@) {
            KindsParse::Parsed(ks) => r matches Ok(k) && k.wf() && k.set_view() == ks,
            KindsParse::EmptyInput => true,
            KindsParse::EmptySegment => r matches Err(e) && e@
                == "malformed --type: empty segment between commas"@,
            KindsParse::BadSegment(seg) => r matches Err(e) && e@ == invalid_msg(seg),
        },
    decreases s@.len(),
{
    let n = s.unicode_len();
    let comma = find_char_str(s, ',');
    let head = match comma {
        Option::Some(c) => {
            let prefix = s.substring_char(0, c);
            proof {
                assert(prefix@ =~= s@.subrange(0, find_char(s@, ',')));
            }
            trim_str(prefix)
        },
        Option::None => trim_str(s),
    };
    if head.unicode_len() == 0 {
        return Result::Err("malformed --type: empty segment between commas".to_owned());
    }
    let cls = classify_segment(head);
    if cls.is_none() {
        return Result::Err(invalid_msg_exec(head));
    }
    let mut kinds = match comma {
        Option::Some(c) => {
            let rest = s.substring_char(c + 1, n);
            proof {
                assert(rest@ =~= s@.subrange(find_char(s@, ',') + 1, s@.len() as int));
            }
            proof {
                lemma_parse_list_no_empty_input(rest@);
            }
            match parse_list(rest) {
                Result::Ok(k) => k,
                Result::Err(e) => {
                    return Result::Err(e);
                },
            }
        },
        Option::None => ReleaseKinds::new(),
    };
    match cls {
        Option::Some(Option::None) => {
            kinds.insert(ReleaseKind::Album);
            kinds.insert(ReleaseKind::Single);
            kinds.insert(ReleaseKind::AppearsOn);
            kinds.insert(ReleaseKind::Compilation);
            proof {
                lemma_union_all();
            }
        },
        Option::Some(Option::Some(k)) => {
            kinds.insert(k);
            proof {
                lemma_union_one(k);
            }
        },
        Option::None => {},
    }
    Result::Ok(kinds)
}

/// Inserting one element is uniting with its singleton.
proof fn lemma_union_one(k: ReleaseKind)
    ensures
        forall|base: Set<ReleaseKind>|
            (#[trigger] base.insert(k)) == Set::<ReleaseKind>::empty().insert(k).union(base),
{
    assert forall|base: Set<ReleaseKind>|
        (#[trigger] base.insert(k)) == Set::<ReleaseKind>::empty().insert(k).union(base) by {
        assert(base.insert(k) =~= Set::<ReleaseKind>::empty().insert(k).union(base));
    }
}

/// Inserting every kind is uniting with the full set.
proof fn lemma_union_all()
    ensures
        forall|base: Set<ReleaseKind>|
            ((#[trigger] base.insert(ReleaseKind::Album)).insert(ReleaseKind::Single).insert(
                ReleaseKind::AppearsOn,
            ).insert(ReleaseKind::Compilation)) == all_kinds_set().union(base),
{
    assert forall|base: Set<ReleaseKind>|
        ((#[trigger] base.insert(ReleaseKind::Album)).insert(ReleaseKind::Single).insert(
            ReleaseKind::AppearsOn,
        ).insert(ReleaseKind::Compilation)) == all_kinds_set().union(base) by {
        assert(base.insert(ReleaseKind::Album).insert(ReleaseKind::Single).insert(
            ReleaseKind::AppearsOn,
        ).insert(ReleaseKind::Compilation) =~= all_kinds_set().union(base));
    }
}

/// Parses a user-typed, comma-separated list of release kinds. Segments are
/// trimmed and matched with ASCII case folded and `-` read as `_`; `all`
/// names every kind. The first empty or unrecognised segment is rejected
/// with a message naming it, and all-whitespace input is rejected outright.
pub fn parse_release_kinds(input: &str) -> (r: Result<ReleaseKinds, String>)
    ensures
        match spec_parse_kinds(input@) {
            KindsParse::Parsed(ks) => r matches Ok(k) && k.wf() && k.set_view() == ks,
            KindsParse::EmptyInput => r matches Err(e) && e@
                == "value for --type cannot be empty"@,
            KindsParse::EmptySegment => r matches Err(e) && e@
                == "malformed --type: empty segment between commas"@,
            KindsParse::BadSegment(seg) => r matches Err(e) && e@ == invalid_msg(seg),
        },
{
    let trimmed = trim_str(input);
    if trimmed.unicode_len() == 0 {
        return Result::Err("value for --type cannot be empty".to_owned());
    }
    proof {
        lemma_parse_list_no_empty_input(input@);
    }
    parse_list(input)
}

/// The display form of a kind list: the canonical names joined by commas in
/// display order.
pub open spec fn spec_kinds_string(s: Seq<ReleaseKind>) -> Seq<char>
    decreases s.len(),
{
    if s.len() == 0 {
        Seq::empty()
    } else if s.len() == 1 {
        kind_name(s[0])
    } else {
        spec_kinds_string(s.drop_last()) + seq![','] + kind_name(s.last())
    }
}

impl ReleaseKind {
    /// The canonical, snake_case name of the kind.
    pub fn to_string(&self) -> (r: String)
        ensures
            r@ == kind_name(*self),
    {
        proof {
            lemma_kind_name_literals();
        }
        match self {
            ReleaseKind::Album => "album".to_owned(),
            ReleaseKind::Single => "single".to_owned(),
            ReleaseKind::AppearsOn => "appears_on".to_owned(),
            ReleaseKind::Compilation => "compilation".to_owned(),
        }
    }
}

impl ReleaseKinds {
    /// The held kinds as a comma-separated list of canonical names.
    pub fn to_string(&self) -> (r: String)
        ensures
            r@ == spec_kinds_string(self.seq_view()),
    {
        let items = self.iter();
        let mut out = String::new();
        let mut i: usize = 0;
        while i < items.len()
            invariant
                0 <= i <= items@.len(),
                items@ == self.seq_view(),
                out@ == spec_kinds_string(self.seq_view().subrange(0, i as int)),
            decreases items@.len() - i,
        {
            let ghost pre = self.seq_view().subrange(0, i as int);
            let ghost next = self.seq_view().subrange(0, i as int + 1);
            proof {
                reveal_strlit(",");
                assert(next.drop_last() =~= pre);
                assert(next.last() == self.seq_view()[i as int]);
                assert(","@ =~= seq![',']);
            }
            if i > 0 {
                out.append(",");
            }
            let name = items[i].to_string();
            out.append(name.as_str());
            proof {
                if i == 0 {
                    assert(next.len() == 1 && next[0] == self.seq_view()[0]);
                }
            }
            i = i + 1;
        }
        proof {
            assert(self.seq_view().subrange(0, self.seq_view().len() as int) =~= self.seq_view());
        }
        out
    }
}

/// The canonical names hold no comma and no whitespace, normalise to
/// themselves, and are told apart by length alone.
proof fn lemma_kind_name_facts(k: ReleaseKind)
    ensures
        kind_name(k).len() >= 1,
        find_char(kind_name(k), ',') < 0,
        spec_trim(kind_name(k)) == kind_name(k),
        seg_kinds(kind_name(k)) == Option::Some(Set::<ReleaseKind>::empty().insert(k)),
        !crate::text::is_space(kind_name(k)[0]),
        !crate::text::is_space(kind_name(k).last()),
{
    let s = kind_name(k);
    assert forall|j: int| 0 <= j < s.len() implies s[j] != ',' by {
        match k {
            ReleaseKind::Album => {},
            ReleaseKind::Single => {},
            ReleaseKind::AppearsOn => {},
            ReleaseKind::Compilation => {},
        }
    }
    crate::text::lemma_find_char(s, ',');
    if find_char(s, ',') >= 0 {
        assert(s[find_char(s, ',')] != ',');
    }
    assert(crate::text::spec_trim_front(s) == s);
    assert(crate::text::spec_trim_back(s) == s);
    assert(matches_norm(s, s)) by {
        assert(forall|i: int|
            0 <= i < s.len() ==> crate::text::norm_val(s[i]) == #[trigger] s[i] as u32);
    }
}

/// The display form of a non-empty list splits into its first name, a
/// comma, and the display form of the rest.
proof fn lemma_kinds_string_cons(s: Seq<ReleaseKind>)
    requires
        s.len() >= 2,
    ensures
        spec_kinds_string(s) == kind_name(s[0]) + seq![','] + spec_kinds_string(s.drop_first()),
    decreases s.len(),
{
    if s.len() == 2 {
        assert(s.drop_last().len() == 1 && s.drop_last()[0] == s[0]);
        assert(s.drop_first().len() == 1 && s.drop_first()[0] == s[1]);
        assert(spec_kinds_string(s) =~= kind_name(s[0]) + seq![','] + spec_kinds_string(
            s.drop_first(),
        ));
    } else {
        lemma_kinds_string_cons(s.drop_last());
        assert(s.drop_last()[0] == s[0]);
        assert(s.drop_last().drop_first() =~= s.drop_first().drop_last());
        assert(s.drop_first().last() == s.last());
        assert(spec_kinds_string(s) == spec_kinds_string(s.drop_last()) + seq![','] + kind_name(
            s.last(),
        ));
        assert(spec_kinds_string(s) =~= kind_name(s[0]) + seq![','] + spec_kinds_string(
            s.drop_first(),
        ));
    }
}

/// Parsing the display form of a non-empty kind list yields exactly its
/// member set.
proof fn lemma_display_parse_list(s: Seq<ReleaseKind>)
    requires
        s.len() >= 1,
    ensures
        spec_parse_list(spec_kinds_string(s)) == KindsParse::Parsed(s.to_set()),
    decreases s.len(),
{
    let str = spec_kinds_string(s);
    lemma_kind_name_facts(s[0]);
    if s.len() == 1 {
        assert(str == kind_name(s[0]));
        assert(spec_parse_list(str) == KindsParse::Parsed(
            Set::<ReleaseKind>::empty().insert(s[0]),
        ));
        assert(Set::<ReleaseKind>::empty().insert(s[0]) =~= s.to_set()) by {
            assert(s.contains(s[0]));
            assert(forall|x: ReleaseKind| s.contains(x) ==> x == s[0]);
        }
    } else {
        lemma_kinds_string_cons(s);
        let name0 = kind_name(s[0]);
        let rest_str = spec_kinds_string(s.drop_first());
        let tail = seq![','] + rest_str;
        assert(str =~= name0 + tail);
        assert(find_char(tail, ',') == 0);
        crate::text::lemma_find_char_concat(name0, tail, ',');
        let c = find_char(str, ',');
        assert(c == name0.len());
        assert(0 <= c < str.len());
        assert(str.subrange(0, c) =~= name0);
        assert(str.subrange(c + 1, str.len() as int) =~= rest_str);
        lemma_display_parse_list(s.drop_first());
        assert(spec_parse_list(str) == KindsParse::Parsed(
            Set::<ReleaseKind>::empty().insert(s[0]).union(s.drop_first().to_set()),
        ));
        assert(Set::<ReleaseKind>::empty().insert(s[0]).union(s.drop_first().to_set())
            =~= s.to_set()) by {
            assert(s.contains(s[0]));
            assert forall|x: ReleaseKind| s.drop_first().contains(x) implies s.contains(x) by {
                let i = choose|i: int| 0 <= i < s.drop_first().len() && s.drop_first()[i] == x;
                assert(s[i + 1] == x);
            }
            assert forall|x: ReleaseKind| s.contains(x) implies x == s[0]
                || s.drop_first().contains(x) by {
                let i = choose|i: int| 0 <= i < s.len() && s[i] == x;
                if i > 0 {
                    assert(s.drop_first()[i - 1] == x);
                }
            }
        }
    }
}

/// Displaying a non-empty kind list and parsing the result yields exactly
/// the same set of kinds: the display/parse round trip loses nothing and
/// invents nothing. (The empty list displays as the empty string, which the
/// parser rejects, so it is left out.)
pub proof fn lemma_display_parse_round_trip(s: Seq<ReleaseKind>)
    requires
        s.len() >= 1,
    ensures
        spec_parse_kinds(spec_kinds_string(s)) == KindsParse::Parsed(s.to_set()),
{
    let str = spec_kinds_string(s);
    lemma_kind_name_facts(s[0]);
    lemma_kind_name_facts(s.last());
    lemma_kinds_string_len(s);
    lemma_kinds_string_last(s);
    if s.len() >= 2 {
        lemma_kinds_string_cons(s);
        assert(str[0] == kind_name(s[0])[0]);
    } else {
        assert(str == kind_name(s[0]));
    }
    assert(crate::text::spec_trim_front(str) == str);
    assert(crate::text::spec_trim_back(str) == str);
    lemma_display_parse_list(s);
}

/// A rank-sorted kind sequence is determined by its member set, so the
/// display/parse round trip returns not just the same set but the same
/// sequence of kinds.
pub proof fn lemma_sorted_kinds_unique(a: Seq<ReleaseKind>, b: Seq<ReleaseKind>)
    requires
        kinds_sorted(a),
        kinds_sorted(b),
        a.to_set() == b.to_set(),
    ensures
        a == b,
    decreases a.len(),
{
    if a.len() == 0 {
        if b.len() > 0 {
            assert(b.contains(b[0]));
            assert(b.to_set().contains(b[0]));
            assert(a.to_set().contains(b[0]));
            assert(a.contains(b[0]));
            assert(false);
        }
        assert(a =~= b);
    } else {
        assert(a.contains(a[0]));
        assert(a.to_set().contains(a[0]));
        assert(b.to_set().contains(a[0]));
        assert(b.contains(a[0]));
        assert(b.len() > 0);
        assert(b.contains(b[0]));
        assert(b.to_set().contains(b[0]));
        assert(a.to_set().contains(b[0]));
        assert(a.contains(b[0]));
        let ia = choose|i: int| 0 <= i < a.len() && a[i] == b[0];
        let ib = choose|i: int| 0 <= i < b.len() && b[i] == a[0];
        assert(kind_rank(a[0]) <= kind_rank(a[ia]));
        assert(kind_rank(b[0]) <= kind_rank(b[ib]));
        assert(kind_rank(a[0]) == kind_rank(b[0]));
        assert(a[0] == b[0]) by {
            match a[0] {
                ReleaseKind::Album => {},
                ReleaseKind::Single => {},
                ReleaseKind::AppearsOn => {},
                ReleaseKind::Compilation => {},
            }
        }
        let ta = a.drop_first();
        let tb = b.drop_first();
        assert(forall|i: int| 0 <= i < ta.len() ==> ta[i] == a[i + 1]);
        assert(forall|i: int| 0 <= i < tb.len() ==> tb[i] == b[i + 1]);
        assert(kinds_sorted(ta));
        assert(kinds_sorted(tb));
        assert(ta.to_set() =~= tb.to_set()) by {
            assert forall|x: ReleaseKind| ta.contains(x) implies tb.contains(x) by {
                let i = choose|i: int| 0 <= i < ta.len() && ta[i] == x;
                assert(kind_rank(a[0]) < kind_rank(x));
                assert(a.contains(x));
                assert(a.to_set().contains(x));
                assert(b.to_set().contains(x));
                assert(b.contains(x));
                let j = choose|j: int| 0 <= j < b.len() && b[j] == x;
                assert(j > 0);
                assert(tb[j - 1] == x);
            }
            assert forall|x: ReleaseKind| tb.contains(x) implies ta.contains(x) by {
                let i = choose|i: int| 0 <= i < tb.len() && tb[i] == x;
                assert(kind_rank(b[0]) < kind_rank(x));
                assert(b.contains(x));
                assert(b.to_set().contains(x));
                assert(a.to_set().contains(x));
                assert(a.contains(x));
                let j = choose|j: int| 0 <= j < a.len() && a[j] == x;
                assert(j > 0);
                assert(ta[j - 1] == x);
            }
        }
        lemma_sorted_kinds_unique(ta, tb);
        assert(a.len() == b.len());
        assert(forall|i: int| 1 <= i < a.len() ==> a[i] == ta[i - 1] && b[i] == tb[i - 1]);
        assert(a =~= b);
    }
}

/// A non-empty list displays as a non-empty string.
proof fn lemma_kinds_string_len(s: Seq<ReleaseKind>)
    requires
        s.len() >= 1,
    ensures
        spec_kinds_string(s).len() >= kind_name(s[0]).len(),
        spec_kinds_string(s).len() >= 1,
    decreases s.len(),
{
    lemma_kind_name_facts(s[0]);
    if s.len() >= 2 {
        lemma_kinds_string_cons(s);
    }
}

/// The display form ends with the last character of the last name.
proof fn lemma_kinds_string_last(s: Seq<ReleaseKind>)
    requires
        s.len() >= 1,
    ensures
        spec_kinds_string(s).len() >= 1,
        spec_kinds_string(s).last() == kind_name(s.last()).last(),
    decreases s.len(),
{
    lemma_kind_name_facts(s[0]);
    lemma_kind_name_facts(s.last());
    if s.len() >= 2 {
        assert(spec_kinds_string(s) == spec_kinds_string(s.drop_last()) + seq![','] + kind_name(
            s.last(),
        ));
        lemma_kinds_string_len(s.drop_last());
    }
}

} // verus!
