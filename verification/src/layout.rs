//! The file families a synthetic Skyrim `Data/` directory holds.

use vstd::prelude::*;
use vstd::string::StrSliceExecFns;
use crate::text::chars_of;
use vstd::seq_lib::lemma_no_dup_in_concat;

verus! {

/// File families emitted into a generated data tree.
#[derive(Debug, Clone, Copy, PartialEq, Eq, Structural)]
pub struct Formats {
    /// Loose `textures/*.dds` files.
    pub dds: bool,
    /// Loose `scripts/*.pex` files.
    pub pex: bool,
    /// Loose `meshes/*.nif` files.
    pub nif: bool,
    /// `Skyrim - Misc.bsa` and `Skyrim - Meshes.bsa` archives.
    pub bsa: bool,
    /// A `Skyrim - Textures.ba2` archive containing the textures.
    pub ba2: bool,
    /// A `Skyrim.esm` plugin with a generated worldspace.
    pub esm: bool,
}

/// Why a format list was refused.
#[derive(Debug, Clone, PartialEq, Eq)]
pub enum FormatError {
    /// A name between commas is empty once trimmed.
    EmptyName,
    /// A name is none of `dds`, `pex`, `nif`, `bsa`, `ba2` and `esm`.
    UnknownName(String),
    /// No format is selected.
    NoFormats,
}

/// What is wrong with one name of a format list.
pub enum NameFault {
    /// The trimmed name is empty.
    Empty,
    /// The trimmed name is not a known format.
    Unknown(Seq<char>),
}

/// Every format enabled.
pub open spec fn all_formats() -> Formats {
    Formats { dds: true, pex: true, nif: true, bsa: true, ba2: true, esm: true }
}

/// No format enabled.
pub open spec fn no_formats() -> Formats {
    Formats { dds: false, pex: false, nif: false, bsa: false, ba2: false, esm: false }
}

/// Some format is enabled.
pub open spec fn any_format(f: Formats) -> bool {
    f.dds || f.pex || f.nif || f.bsa || f.ba2 || f.esm
}

/// Unicode `White_Space`, the characters `char::is_whitespace` accepts.
pub open spec fn is_unicode_whitespace(c: char) -> bool {
    let v = c as u32;
    ||| 0x09 <= v <= 0x0d
    ||| v == 0x20
    ||| v == 0x85
    ||| v == 0xa0
    ||| v == 0x1680
    ||| 0x2000 <= v <= 0x200a
    ||| v == 0x2028
    ||| v == 0x2029
    ||| v == 0x202f
    ||| v == 0x205f
    ||| v == 0x3000
}

/// `s` without its leading whitespace.
pub open spec fn trim_start(s: Seq<char>) -> Seq<char>
    decreases s.len(),
{
    if s.len() > 0 && is_unicode_whitespace(s[0]) {
        trim_start(s.drop_first())
    } else {
        s
    }
}

/// `s` without its trailing whitespace.
pub open spec fn trim_end(s: Seq<char>) -> Seq<char>
    decreases s.len(),
{
    if s.len() > 0 && is_unicode_whitespace(s.last()) {
        trim_end(s.drop_last())
    } else {
        s
    }
}

/// `s` without leading and trailing whitespace, as `str::trim` gives it.
pub open spec fn trim(s: Seq<char>) -> Seq<char> {
    trim_end(trim_start(s))
}

/// The pieces of `s` between commas, as `str::split(',')` gives them: one
/// more piece than there are commas.
pub open spec fn split_commas(s: Seq<char>) -> Seq<Seq<char>>
    decreases s.len(),
{
    if s.len() == 0 {
        seq![Seq::empty()]
    } else if s.last() == ',' {
        split_commas(s.drop_last()).push(Seq::empty())
    } else {
        let pieces = split_commas(s.drop_last());
        pieces.update(pieces.len() - 1, pieces.last().push(s.last()))
    }
}

/// `f` with the format named `name` enabled, when `name` is a format.
pub open spec fn with_named_format(f: Formats, name: Seq<char>) -> Option<Formats> {
    if name == seq!['d', 'd', 's'] {
        Some(Formats { dds: true, ..f })
    } else if name == seq!['p', 'e', 'x'] {
        Some(Formats { pex: true, ..f })
    } else if name == seq!['n', 'i', 'f'] {
        Some(Formats { nif: true, ..f })
    } else if name == seq!['b', 's', 'a'] {
        Some(Formats { bsa: true, ..f })
    } else if name == seq!['b', 'a', '2'] {
        Some(Formats { ba2: true, ..f })
    } else if name == seq!['e', 's', 'm'] {
        Some(Formats { esm: true, ..f })
    } else {
        None
    }
}

/// The formats the trimmed `pieces` name, or the fault of the first piece
/// that names none.
pub open spec fn formats_named(pieces: Seq<Seq<char>>) -> Result<Formats, NameFault>
    decreases pieces.len(),
{
    if pieces.len() == 0 {
        Ok(no_formats())
    } else {
        match formats_named(pieces.drop_last()) {
            Err(fault) => Err(fault),
            Ok(f) => {
                let name = trim(pieces.last());
                if name.len() == 0 {
                    Err(NameFault::Empty)
                } else {
                    match with_named_format(f, name) {
                        Some(g) => Ok(g),
                        None => Err(NameFault::Unknown(name)),
                    }
                }
            },
        }
    }
}


/// Dropping `k` leading whitespace characters, up to the first other one,
/// is trimming the start.
proof fn lemma_trim_start(s: Seq<char>, k: int)
    requires
        0 <= k <= s.len(),
        forall|j: int| 0 <= j < k ==> is_unicode_whitespace(#[trigger] s[j]),
        k == s.len() || !is_unicode_whitespace(s[k]),
    ensures
        trim_start(s) == s.skip(k),
    decreases k,
{
    if k > 0 {
        assert forall|j: int| 0 <= j < k - 1 implies is_unicode_whitespace(
            #[trigger] s.drop_first()[j],
        ) by {
            assert(s.drop_first()[j] == s[j + 1]);
        }
        if k < s.len() {
            assert(s.drop_first()[k - 1] == s[k]);
        }
        lemma_trim_start(s.drop_first(), k - 1);
        assert(s.drop_first().skip(k - 1) =~= s.skip(k));
    } else {
        assert(s.skip(0) =~= s);
    }
}

/// Keeping the first `m` characters, when all later ones are whitespace and
/// the last kept one is not, is trimming the end.
proof fn lemma_trim_end(s: Seq<char>, m: int)
    requires
        0 <= m <= s.len(),
        forall|j: int| m <= j < s.len() ==> is_unicode_whitespace(#[trigger] s[j]),
        m == 0 || !is_unicode_whitespace(s[m - 1]),
    ensures
        trim_end(s) == s.take(m),
    decreases s.len() - m,
{
    if m < s.len() {
        assert(is_unicode_whitespace(s[s.len() - 1]));
        lemma_trim_end(s.drop_last(), m);
        assert(s.drop_last().take(m) =~= s.take(m));
    } else {
        assert(s.take(m) =~= s);
    }
}

/// Splitting one more character off the front of the text.
proof fn lemma_split_commas_step(s: Seq<char>, i: int)
    requires
        0 <= i < s.len(),
    ensures
        s.take(i + 1).drop_last() == s.take(i),
        s.take(i + 1).last() == s[i],
        s[i] == ',' ==> split_commas(s.take(i + 1)) == split_commas(s.take(i)).push(Seq::empty()),
        s[i] != ',' ==> split_commas(s.take(i + 1)) == split_commas(s.take(i)).update(
            split_commas(s.take(i)).len() - 1,
            split_commas(s.take(i)).last().push(s[i]),
        ),
{
    assert(s.take(i + 1).drop_last() =~= s.take(i));
}

/// The pieces of a prefix other than its last one stay pieces of every
/// longer prefix.
proof fn lemma_split_commas_prefix(s: Seq<char>, j: int, k: int)
    requires
        0 <= j <= k <= s.len(),
    ensures
        split_commas(s.take(k)).len() >= split_commas(s.take(j)).len(),
        split_commas(s.take(k)).take(split_commas(s.take(j)).len() - 1) == split_commas(
            s.take(j),
        ).drop_last(),
    decreases k - j,
{
    lemma_split_commas_nonempty(s.take(j));
    if k == j {
        assert(split_commas(s.take(k)).take(split_commas(s.take(j)).len() - 1) =~= split_commas(
            s.take(j),
        ).drop_last());
    } else {
        lemma_split_commas_prefix(s, j, k - 1);
        lemma_split_commas_step(s, k - 1);
        lemma_split_commas_nonempty(s.take(k - 1));
        let m = split_commas(s.take(j)).len() - 1;
        let before = split_commas(s.take(k - 1));
        let after = split_commas(s.take(k));
        if s[k - 1] == ',' {
            assert(after.take(m) =~= before.take(m));
        } else {
            assert(after.take(m) =~= before.take(m));
        }
    }
}

/// A fault in the leading pieces is the fault of the whole list.
proof fn lemma_formats_named_fault_persists(p: Seq<Seq<char>>, q: Seq<Seq<char>>)
    requires
        formats_named(p) is Err,
    ensures
        formats_named(p + q) == formats_named(p),
    decreases q.len(),
{
    if q.len() == 0 {
        assert(p + q =~= p);
    } else {
        lemma_formats_named_fault_persists(p, q.drop_last());
        assert((p + q).drop_last() =~= p + q.drop_last());
    }
}

/// There is always a piece.
proof fn lemma_split_commas_nonempty(s: Seq<char>)
    ensures
        split_commas(s).len() >= 1,
    decreases s.len(),
{
    if s.len() > 0 {
        lemma_split_commas_nonempty(s.drop_last());
    }
}

/// Whether `c` is Unicode whitespace.
fn is_whitespace_char(c: char) -> (r: bool)
    ensures
        r == is_unicode_whitespace(c),
{
    let v = c as u32;
    (0x09 <= v && v <= 0x0d) || v == 0x20 || v == 0x85 || v == 0xa0 || v == 0x1680 || (0x2000
        <= v && v <= 0x200a) || v == 0x2028 || v == 0x2029 || v == 0x202f || v == 0x205f || v
        == 0x3000
}

/// Whether `chars[a..b]` is the three-character name `name`.
fn is_name(chars: &Vec<char>, a: usize, b: usize, name: [char; 3]) -> (r: bool)
    requires
        a <= b <= chars@.len(),
    ensures
        r == (chars@.subrange(a as int, b as int) == name@),
{
    if b - a != 3 {
        assert(chars@.subrange(a as int, b as int).len() != name@.len());
        return false;
    }
    let same = chars[a] == name[0] && chars[a + 1] == name[1] && chars[a + 2] == name[2];
    if same {
        assert(chars@.subrange(a as int, b as int) =~= name@);
    } else {
        assert(chars@.subrange(a as int, b as int) != name@) by {
            if chars@.subrange(a as int, b as int) == name@ {
                assert(chars@.subrange(a as int, b as int)[0] == name@[0]);
                assert(chars@.subrange(a as int, b as int)[1] == name@[1]);
                assert(chars@.subrange(a as int, b as int)[2] == name@[2]);
            }
        }
    }
    same
}

/// A list that parses names at least one format, so the writer never finds
/// a list with no format selected.
pub proof fn lemma_parsed_list_selects_a_format(s: Seq<char>)
    ensures
        formats_named(split_commas(s)) matches Ok(f) ==> any_format(f),
{
    lemma_split_commas_nonempty(s);
}

/// The formats enabled in `f` or in `g`.
pub open spec fn union_formats(f: Formats, g: Formats) -> Formats {
    Formats {
        dds: f.dds || g.dds,
        pex: f.pex || g.pex,
        nif: f.nif || g.nif,
        bsa: f.bsa || g.bsa,
        ba2: f.ba2 || g.ba2,
        esm: f.esm || g.esm,
    }
}

/// Two texts joined by a comma split into the pieces of the first, then
/// those of the second.
proof fn lemma_split_commas_join(a: Seq<char>, b: Seq<char>)
    ensures
        split_commas(a + seq![','] + b) == split_commas(a) + split_commas(b),
    decreases b.len(),
{
    let s = a + seq![','] + b;
    if b.len() == 0 {
        assert(s.drop_last() =~= a);
        assert(split_commas(b) =~= seq![Seq::<char>::empty()]);
        assert(split_commas(a).push(Seq::empty()) =~= split_commas(a) + split_commas(b));
    } else {
        lemma_split_commas_join(a, b.drop_last());
        lemma_split_commas_nonempty(b.drop_last());
        assert(s.drop_last() =~= a + seq![','] + b.drop_last());
        let left = split_commas(a);
        let right = split_commas(b.drop_last());
        if b.last() == ',' {
            assert((left + right).push(Seq::empty()) =~= left + right.push(Seq::empty()));
        } else {
            assert((left + right).update(
                (left + right).len() - 1,
                (left + right).last().push(b.last()),
            ) =~= left + right.update(right.len() - 1, right.last().push(b.last())));
        }
    }
}

/// After leading pieces that name `f`, the later pieces add their formats
/// to `f`, or fail as they fail alone.
proof fn lemma_formats_named_join(p: Seq<Seq<char>>, q: Seq<Seq<char>>, f: Formats)
    requires
        formats_named(p) == Ok::<Formats, NameFault>(f),
    ensures
        formats_named(p + q) == match formats_named(q) {
            Ok(g) => Ok::<Formats, NameFault>(union_formats(f, g)),
            Err(e) => Err(e),
        },
    decreases q.len(),
{
    if q.len() == 0 {
        assert(p + q =~= p);
        assert(union_formats(f, no_formats()) == f);
    } else {
        lemma_formats_named_join(p, q.drop_last(), f);
        assert((p + q).drop_last() =~= p + q.drop_last());
        assert((p + q).last() == q.last());
    }
}

/// Joining two lists that parse, in either order, enables the formats
/// either enables, and listing one twice changes nothing.
pub proof fn lemma_joined_lists_or_their_flags(a: Seq<char>, b: Seq<char>)
    requires
        formats_named(split_commas(a)) is Ok,
        formats_named(split_commas(b)) is Ok,
    ensures
        ({
            let fa = formats_named(split_commas(a))->Ok_0;
            let fb = formats_named(split_commas(b))->Ok_0;
            &&& formats_named(split_commas(a + seq![','] + b)) == Ok::<Formats, NameFault>(
                union_formats(fa, fb),
            )
            &&& formats_named(split_commas(b + seq![','] + a)) == Ok::<Formats, NameFault>(
                union_formats(fa, fb),
            )
            &&& formats_named(split_commas(a + seq![','] + a)) == Ok::<Formats, NameFault>(fa)
        }),
{
    let fa = formats_named(split_commas(a))->Ok_0;
    let fb = formats_named(split_commas(b))->Ok_0;
    lemma_split_commas_join(a, b);
    lemma_split_commas_join(b, a);
    lemma_split_commas_join(a, a);
    lemma_formats_named_join(split_commas(a), split_commas(b), fa);
    lemma_formats_named_join(split_commas(b), split_commas(a), fb);
    lemma_formats_named_join(split_commas(a), split_commas(a), fa);
    assert(union_formats(fa, fa) == fa);
}

/// Some piece of `pieces`, trimmed, is `name`.
pub open spec fn lists_name(pieces: Seq<Seq<char>>, name: Seq<char>) -> bool {
    exists|i: int| 0 <= i < pieces.len() && trim(pieces[i]) == name
}

/// Each format of a list that names only formats is enabled exactly when
/// some piece of the list, trimmed, is that format's name: `dds`, `pex`,
/// `nif`, `bsa`, `ba2` or `esm`.
pub proof fn lemma_each_name_enables_its_own_format(pieces: Seq<Seq<char>>)
    ensures
        formats_named(pieces) matches Ok(f) ==> {
            &&& f.dds == lists_name(pieces, seq!['d', 'd', 's'])
            &&& f.pex == lists_name(pieces, seq!['p', 'e', 'x'])
            &&& f.nif == lists_name(pieces, seq!['n', 'i', 'f'])
            &&& f.bsa == lists_name(pieces, seq!['b', 's', 'a'])
            &&& f.ba2 == lists_name(pieces, seq!['b', 'a', '2'])
            &&& f.esm == lists_name(pieces, seq!['e', 's', 'm'])
        },
    decreases pieces.len(),
{
    if pieces.len() > 0 {
        let front = pieces.drop_last();
        lemma_each_name_enables_its_own_format(front);
        if formats_named(pieces) is Ok {
            let name = trim(pieces.last());
            let names: Seq<Seq<char>> = seq![
                seq!['d', 'd', 's'],
                seq!['p', 'e', 'x'],
                seq!['n', 'i', 'f'],
                seq!['b', 's', 'a'],
                seq!['b', 'a', '2'],
                seq!['e', 's', 'm'],
            ];
            assert forall|k: int| 0 <= k < 6 implies lists_name(pieces, #[trigger] names[k])
                == (lists_name(front, names[k]) || name == names[k]) by {
                if lists_name(pieces, names[k]) {
                    let i = choose|i: int| 0 <= i < pieces.len() && trim(pieces[i]) == names[k];
                    if i < pieces.len() - 1 {
                        assert(front[i] == pieces[i]);
                    }
                }
                if lists_name(front, names[k]) {
                    let i = choose|i: int| 0 <= i < front.len() && trim(front[i]) == names[k];
                    assert(pieces[i] == front[i]);
                }
                if name == names[k] {
                    assert(trim(pieces[pieces.len() - 1]) == names[k]);
                }
            }
            assert(names[0] == seq!['d', 'd', 's']);
            assert(names[1] == seq!['p', 'e', 'x']);
            assert(names[2] == seq!['n', 'i', 'f']);
            assert(names[3] == seq!['b', 's', 'a']);
            assert(names[4] == seq!['b', 'a', '2']);
            assert(names[5] == seq!['e', 's', 'm']);
            assert forall|k: int, m: int| 0 <= k < m < 6 implies names[k] != names[m] by {
                if names[k] == names[m] {
                    assert(names[k][0] == names[m][0]);
                    assert(names[k][1] == names[m][1]);
                    assert(names[k][2] == names[m][2]);
                }
            }
        }
    }
}

impl Formats {
    /// Enables every format.
    pub fn all() -> (f: Self)
        ensures
            f == all_formats(),
    {
        Formats { dds: true, pex: true, nif: true, bsa: true, ba2: true, esm: true }
    }

    /// Enables the format named by the trimmed `chars[a..b]`, or reports
    /// why it names none.
    fn apply_name(self, value: &str, chars: &Vec<char>, a: usize, b: usize) -> (r: Result<
        Formats,
        FormatError,
    >)
        requires
            chars@ == value@,
            a <= b <= chars@.len(),
        ensures
            ({
                let name = chars@.subrange(a as int, b as int);
                if name.len() == 0 {
                    r == Err::<Formats, FormatError>(FormatError::EmptyName)
                } else {
                    match with_named_format(self, name) {
                        Some(g) => r == Ok::<Formats, FormatError>(g),
                        None => r matches Err(FormatError::UnknownName(m)) && m@ == name,
                    }
                }
            }),
    {
        let mut f = self;
        if is_name(chars, a, b, ['d', 'd', 's']) {
            f.dds = true;
        } else if is_name(chars, a, b, ['p', 'e', 'x']) {
            f.pex = true;
        } else if is_name(chars, a, b, ['n', 'i', 'f']) {
            f.nif = true;
        } else if is_name(chars, a, b, ['b', 's', 'a']) {
            f.bsa = true;
        } else if is_name(chars, a, b, ['b', 'a', '2']) {
            f.ba2 = true;
        } else if is_name(chars, a, b, ['e', 's', 'm']) {
            f.esm = true;
        } else if a == b {
            return Err(FormatError::EmptyName);
        } else {
            return Err(FormatError::UnknownName(value.substring_char(a, b).to_owned()));
        }
        Ok(f)
    }

    /// Parses a comma-separated list such as `dds,pex,nif,bsa,ba2,esm`; each
    /// name may carry surrounding whitespace.
    pub fn parse(value: &str) -> (r: Result<Self, FormatError>)
        ensures
            match formats_named(split_commas(value@)) {
                Err(NameFault::Empty) => r == Err::<Formats, FormatError>(FormatError::EmptyName),
                Err(NameFault::Unknown(name)) => r matches Err(FormatError::UnknownName(m))
                    && m@ == name,
                Ok(f) => if any_format(f) {
                    r == Ok::<Formats, FormatError>(f)
                } else {
                    r == Err::<Formats, FormatError>(FormatError::NoFormats)
                },
            },
    {
        let chars = chars_of(value);
        let n = chars.len();
        let mut formats = Formats {
            dds: false,
            pex: false,
            nif: false,
            bsa: false,
            ba2: false,
            esm: false,
        };
        let ghost mut done: Seq<Seq<char>> = Seq::empty();
        let mut start: usize = 0;
        let mut i: usize = 0;
        assert(chars@.take(0) =~= Seq::<char>::empty());
        assert(split_commas(chars@.take(0)) =~= done.push(chars@.subrange(0, 0)));
        loop
            invariant
                chars@ == value@,
                n == chars@.len(),
                start <= i <= n,
                split_commas(chars@.take(i as int)) == done.push(chars@.subrange(start as int, i as int)),
                formats_named(done) == Ok::<Formats, NameFault>(formats),
            decreases n - i,
        {
            if i == n || chars[i] == ',' {
                let mut a = start;
                while a < i && is_whitespace_char(chars[a])
                    invariant
                        start <= a <= i <= n,
                        n == chars@.len(),
                        forall|j: int| start <= j < a ==> is_unicode_whitespace(#[trigger] chars@[j]),
                    decreases i - a,
                {
                    a += 1;
                }
                let mut b = i;
                while b > a && is_whitespace_char(chars[b - 1])
                    invariant
                        a <= b <= i <= n,
                        n == chars@.len(),
                        forall|j: int| b <= j < i ==> is_unicode_whitespace(#[trigger] chars@[j]),
                    decreases b - a,
                {
                    b -= 1;
                }
                let ghost piece = chars@.subrange(start as int, i as int);
                proof {
                    assert forall|j: int| 0 <= j < a - start implies is_unicode_whitespace(
                        #[trigger] piece[j],
                    ) by {
                        assert(piece[j] == chars@[start + j]);
                    }
                    if a < i {
                        assert(piece[a - start] == chars@[a as int]);
                    }
                    lemma_trim_start(piece, a - start);
                    let rest = piece.skip(a - start);
                    assert forall|j: int| b - a <= j < rest.len() implies is_unicode_whitespace(
                        #[trigger] rest[j],
                    ) by {
                        assert(rest[j] == chars@[a + j]);
                    }
                    if b > a {
                        assert(rest[b - a - 1] == chars@[b - 1]);
                    }
                    lemma_trim_end(rest, b - a);
                    assert(rest.take(b - a) =~= chars@.subrange(a as int, b as int));
                    assert(done.push(piece).drop_last() =~= done);
                }
                let next = formats.apply_name(value, &chars, a, b);
                match next {
                    Err(e) => {
                        proof {
                            if i < n {
                                lemma_split_commas_step(chars@, i as int);
                                lemma_split_commas_prefix(chars@, i + 1, n as int);
                                let all = split_commas(chars@.take(n as int));
                                let lead = done.push(piece);
                                assert(split_commas(chars@.take(i + 1)).drop_last() =~= lead);
                                assert(all =~= lead + all.skip(lead.len() as int));
                                lemma_formats_named_fault_persists(lead, all.skip(lead.len() as int));
                            }
                            assert(chars@.take(n as int) =~= chars@);
                        }
                        return Err(e);
                    },
                    Ok(f) => {
                        formats = f;
                    },
                }
                if i == n {
                    assert(chars@.take(n as int) =~= chars@);
                    if formats.dds || formats.pex || formats.nif || formats.bsa || formats.ba2
                        || formats.esm {
                        return Ok(formats);
                    } else {
                        return Err(FormatError::NoFormats);
                    }
                }
                proof {
                    lemma_split_commas_step(chars@, i as int);
                    done = done.push(piece);
                    assert(chars@.subrange(i + 1, i + 1) =~= Seq::<char>::empty());
                }
                i += 1;
                start = i;
            } else {
                proof {
                    lemma_split_commas_step(chars@, i as int);
                    assert(chars@.subrange(start as int, i + 1) =~= chars@.subrange(
                        start as int,
                        i as int,
                    ).push(chars@[i as int]));
                }
                i += 1;
            }
        }
    }
}

/// The files a data tree with `formats` holds, relative to its root, in the
/// order they are written: scripts, textures, meshes, the two `.bsa`
/// archives, the `.ba2` archive, then the plugin.
pub open spec fn generated_paths(formats: Formats) -> Seq<Seq<char>> {
    (if formats.pex {
        seq!["scripts/generated.pex"@, "scripts/second.pex"@]
    } else {
        Seq::empty()
    }) + (if formats.dds {
        seq![
            "textures/generated_color.dds"@,
            "textures/generated_normal.dds"@,
            "textures/generated_color_x8.dds"@,
            "textures/generated_cube.dds"@,
            "textures/generated_volume.dds"@,
        ]
    } else {
        Seq::empty()
    }) + (if formats.nif {
        seq!["meshes/generated.nif"@]
    } else {
        Seq::empty()
    }) + (if formats.bsa {
        seq!["Skyrim - Misc.bsa"@, "Skyrim - Meshes.bsa"@]
    } else {
        Seq::empty()
    }) + (if formats.ba2 {
        seq!["Skyrim - Textures.ba2"@]
    } else {
        Seq::empty()
    }) + (if formats.esm {
        seq!["Skyrim.esm"@]
    } else {
        Seq::empty()
    })
}

/// Appends `path` to the list of files.
fn push_path(files: &mut Vec<&'static str>, path: &'static str)
    ensures
        final(files)@.map_values(|p: &str| p@) == old(files)@.map_values(|p: &str| p@).push(path@),
{
    files.push(path);
    assert(files@.map_values(|p: &str| p@) =~= old(files)@.map_values(|p: &str| p@).push(path@));
}

/// The files a data tree with `formats` holds, in the order they are
/// written.
pub fn generated_files(formats: Formats) -> (r: Vec<&'static str>)
    ensures
        r@.map_values(|p: &str| p@) == generated_paths(formats),
{
    let mut files: Vec<&'static str> = Vec::new();
    assert(files@.map_values(|p: &str| p@) =~= Seq::<Seq<char>>::empty());
    if formats.pex {
        push_path(&mut files, "scripts/generated.pex");
        push_path(&mut files, "scripts/second.pex");
    }
    if formats.dds {
        push_path(&mut files, "textures/generated_color.dds");
        push_path(&mut files, "textures/generated_normal.dds");
        push_path(&mut files, "textures/generated_color_x8.dds");
        push_path(&mut files, "textures/generated_cube.dds");
        push_path(&mut files, "textures/generated_volume.dds");
    }
    if formats.nif {
        push_path(&mut files, "meshes/generated.nif");
    }
    if formats.bsa {
        push_path(&mut files, "Skyrim - Misc.bsa");
        push_path(&mut files, "Skyrim - Meshes.bsa");
    }
    if formats.ba2 {
        push_path(&mut files, "Skyrim - Textures.ba2");
    }
    if formats.esm {
        push_path(&mut files, "Skyrim.esm");
    }
    assert(files@.map_values(|p: &str| p@) =~= generated_paths(formats));
    files
}

impl Default for Formats {
    fn default() -> (f: Self)
        ensures
            f == all_formats(),
    {
        Self::all()
    }
}

/// Each format lists its own files whatever the other formats are: a file
/// of the tree is listed exactly when its format is enabled, no file is
/// listed twice, and the list holds nothing else.
pub proof fn lemma_each_format_lists_its_own_files(f: Formats)
    ensures
        ({
            let paths = generated_paths(f);
            &&& paths.contains("scripts/generated.pex"@) == f.pex
            &&& paths.contains("scripts/second.pex"@) == f.pex
            &&& paths.contains("textures/generated_color.dds"@) == f.dds
            &&& paths.contains("textures/generated_normal.dds"@) == f.dds
            &&& paths.contains("textures/generated_color_x8.dds"@) == f.dds
            &&& paths.contains("textures/generated_cube.dds"@) == f.dds
            &&& paths.contains("textures/generated_volume.dds"@) == f.dds
            &&& paths.contains("meshes/generated.nif"@) == f.nif
            &&& paths.contains("Skyrim - Misc.bsa"@) == f.bsa
            &&& paths.contains("Skyrim - Meshes.bsa"@) == f.bsa
            &&& paths.contains("Skyrim - Textures.ba2"@) == f.ba2
            &&& paths.contains("Skyrim.esm"@) == f.esm
            &&& paths.no_duplicates()
            &&& paths.len() == (if f.pex { 2int } else { 0 }) + (if f.dds { 5int } else { 0 }) + (
            if f.nif { 1int } else { 0 }) + (if f.bsa { 2int } else { 0 }) + (if f.ba2 {
                1int
            } else {
                0
            }) + (if f.esm { 1int } else { 0 })
        }),
{
    reveal_strlit("scripts/generated.pex");
    reveal_strlit("scripts/second.pex");
    reveal_strlit("textures/generated_color.dds");
    reveal_strlit("textures/generated_normal.dds");
    reveal_strlit("textures/generated_color_x8.dds");
    reveal_strlit("textures/generated_cube.dds");
    reveal_strlit("textures/generated_volume.dds");
    reveal_strlit("meshes/generated.nif");
    reveal_strlit("Skyrim - Misc.bsa");
    reveal_strlit("Skyrim - Meshes.bsa");
    reveal_strlit("Skyrim - Textures.ba2");
    reveal_strlit("Skyrim.esm");
    let p1 = "scripts/generated.pex"@;
    let p2 = "scripts/second.pex"@;
    let p3 = "textures/generated_color.dds"@;
    let p4 = "textures/generated_normal.dds"@;
    let p5 = "textures/generated_color_x8.dds"@;
    let p6 = "textures/generated_cube.dds"@;
    let p7 = "textures/generated_volume.dds"@;
    let p8 = "meshes/generated.nif"@;
    let p9 = "Skyrim - Misc.bsa"@;
    let p10 = "Skyrim - Meshes.bsa"@;
    let p11 = "Skyrim - Textures.ba2"@;
    let p12 = "Skyrim.esm"@;
    assert(p1.len() == 21 && p2.len() == 18 && p3.len() == 28 && p4.len() == 29);
    assert(p5.len() == 31 && p6.len() == 27 && p7.len() == 29 && p8.len() == 20);
    assert(p9.len() == 17 && p10.len() == 19 && p11.len() == 21 && p12.len() == 10);
    assert(p1 != p11) by {
        assert(p1[0] != p11[0]);
    }
    assert(p4 != p7) by {
        assert(p4[19] != p7[19]);
    }
    let ps = if f.pex { seq![p1, p2] } else { Seq::empty() };
    let ds = if f.dds { seq![p3, p4, p5, p6, p7] } else { Seq::empty() };
    let ns = if f.nif { seq![p8] } else { Seq::empty() };
    let bs = if f.bsa { seq![p9, p10] } else { Seq::empty() };
    let a2 = if f.ba2 { seq![p11] } else { Seq::empty() };
    let es = if f.esm { seq![p12] } else { Seq::empty() };
    let paths = generated_paths(f);
    assert(paths == ps + ds + ns + bs + a2 + es);
    assert forall|x: Seq<char>| #![trigger paths.contains(x)] paths.contains(x) == (
    ps.contains(x) || ds.contains(x) || ns.contains(x) || bs.contains(x) || a2.contains(x)
        || es.contains(x)) by {
        lemma_contains_concat(ps, ds, x);
        lemma_contains_concat(ps + ds, ns, x);
        lemma_contains_concat(ps + ds + ns, bs, x);
        lemma_contains_concat(ps + ds + ns + bs, a2, x);
        lemma_contains_concat(ps + ds + ns + bs + a2, es, x);
    }
    assert forall|x: Seq<char>| #![trigger ps.contains(x)] ps.contains(x) == (f.pex && (x == p1
        || x == p2)) by {
        if ps.contains(x) {
            let i = choose|i: int| 0 <= i < ps.len() && ps[i] == x;
            assert(i == 0 || i == 1);
        }
        if f.pex && x == p1 {
            assert(ps[0] == x);
        }
        if f.pex && x == p2 {
            assert(ps[1] == x);
        }
    }
    assert forall|x: Seq<char>| #![trigger ds.contains(x)] ds.contains(x) == (f.dds && (x == p3
        || x == p4 || x == p5 || x == p6 || x == p7)) by {
        if ds.contains(x) {
            let i = choose|i: int| 0 <= i < ds.len() && ds[i] == x;
            assert(i == 0 || i == 1 || i == 2 || i == 3 || i == 4);
        }
        if f.dds {
            assert(ds[0] == p3 && ds[1] == p4 && ds[2] == p5 && ds[3] == p6 && ds[4] == p7);
        }
    }
    assert forall|x: Seq<char>| #![trigger bs.contains(x)] bs.contains(x) == (f.bsa && (x == p9
        || x == p10)) by {
        if bs.contains(x) {
            let i = choose|i: int| 0 <= i < bs.len() && bs[i] == x;
            assert(i == 0 || i == 1);
        }
        if f.bsa {
            assert(bs[0] == p9 && bs[1] == p10);
        }
    }
    assert forall|x: Seq<char>| #![trigger ns.contains(x)] ns.contains(x) == (f.nif && x == p8) by {
        if f.nif {
            assert(ns[0] == p8);
        }
    }
    assert forall|x: Seq<char>| #![trigger a2.contains(x)] a2.contains(x) == (f.ba2 && x == p11) by {
        if f.ba2 {
            assert(a2[0] == p11);
        }
    }
    assert forall|x: Seq<char>| #![trigger es.contains(x)] es.contains(x) == (f.esm && x == p12) by {
        if f.esm {
            assert(es[0] == p12);
        }
    }
    assert(ps.no_duplicates());
    assert(ds.no_duplicates());
    assert(bs.no_duplicates());
    lemma_no_dup_in_concat(ps, ds);
    lemma_no_dup_in_concat(ps + ds, ns);
    lemma_no_dup_in_concat(ps + ds + ns, bs);
    lemma_no_dup_in_concat(ps + ds + ns + bs, a2);
    lemma_no_dup_in_concat(ps + ds + ns + bs + a2, es);
}

/// A concatenation holds what either part holds.
proof fn lemma_contains_concat(a: Seq<Seq<char>>, b: Seq<Seq<char>>, x: Seq<char>)
    ensures
        (a + b).contains(x) == (a.contains(x) || b.contains(x)),
{
    if a.contains(x) {
        let i = choose|i: int| 0 <= i < a.len() && a[i] == x;
        assert((a + b)[i] == x);
    }
    if b.contains(x) {
        let i = choose|i: int| 0 <= i < b.len() && b[i] == x;
        assert((a + b)[a.len() + i] == x);
    }
    if (a + b).contains(x) {
        let i = choose|i: int| 0 <= i < (a + b).len() && (a + b)[i] == x;
        if i < a.len() {
            assert(a[i] == x);
        } else {
            assert(b[i - a.len()] == x);
        }
    }
}

} // verus!
