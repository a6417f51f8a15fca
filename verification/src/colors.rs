//! Colours for groups of bays, handed out in the order in which the groups
//! are first seen.

use vstd::prelude::*;
use vstd::string::*;
use crate::err::SError;
use crate::text::same_text;

verus! {

/// How many colours the palette holds.
pub const PALETTE_SIZE: usize = 9;

/// The escape sequence that ends a coloured run.
pub const ASCII_RESET: &'static str = "\x1b[0m";

/// The escape sequence of the `i`-th colour of the palette.
pub open spec fn palette(i: int) -> Seq<char> {
    if i == 0 {
        "\x1b[38;5;22m"@
    } else if i == 1 {
        "\x1b[38;5;58m"@
    } else if i == 2 {
        "\x1b[38;5;94m"@
    } else if i == 3 {
        "\x1b[38;5;24m"@
    } else if i == 4 {
        "\x1b[38;5;60m"@
    } else if i == 5 {
        "\x1b[38;5;96m"@
    } else if i == 6 {
        "\x1b[38;5;27m"@
    } else if i == 7 {
        "\x1b[38;5;63m"@
    } else {
        "\x1b[38;5;99m"@
    }
}

/// The `i`-th colour of the palette.
pub fn palette_entry(i: usize) -> (r: &'static str)
    requires
        i < PALETTE_SIZE,
    ensures
        r@ == palette(i as int),
{
    if i == 0 {
        "\x1b[38;5;22m"
    } else if i == 1 {
        "\x1b[38;5;58m"
    } else if i == 2 {
        "\x1b[38;5;94m"
    } else if i == 3 {
        "\x1b[38;5;24m"
    } else if i == 4 {
        "\x1b[38;5;60m"
    } else if i == 5 {
        "\x1b[38;5;96m"
    } else if i == 6 {
        "\x1b[38;5;27m"
    } else if i == 7 {
        "\x1b[38;5;63m"
    } else {
        "\x1b[38;5;99m"
    }
}

/// No colour stands twice in the palette.
pub proof fn lemma_palette_distinct(i: int, j: int)
    requires
        0 <= i < PALETTE_SIZE,
        0 <= j < PALETTE_SIZE,
        i != j,
    ensures
        palette(i) != palette(j),
{
    reveal_strlit("\x1b[38;5;22m");
    reveal_strlit("\x1b[38;5;58m");
    reveal_strlit("\x1b[38;5;94m");
    reveal_strlit("\x1b[38;5;24m");
    reveal_strlit("\x1b[38;5;60m");
    reveal_strlit("\x1b[38;5;96m");
    reveal_strlit("\x1b[38;5;27m");
    reveal_strlit("\x1b[38;5;63m");
    reveal_strlit("\x1b[38;5;99m");
    let a = palette(i);
    let b = palette(j);
    assert(a[7] != b[7] || a[8] != b[8]);
}

/// A cursor into the palette.
pub struct ColorWheel {
    i: usize,
}

impl ColorWheel {
    /// How many colours have been handed out.
    pub closed spec fn cursor(&self) -> nat {
        self.i as nat
    }

    /// Hands out the next unused colour, until the palette is used up.
    pub fn next(&mut self) -> (r: Result<&'static str, SError>)
        ensures
            old(self).cursor() < PALETTE_SIZE ==> r is Ok && r->Ok_0@ == palette(
                old(self).cursor() as int,
            ) && final(self).cursor() == old(self).cursor() + 1,
            old(self).cursor() >= PALETTE_SIZE ==> r == Err::<&'static str, SError>(
                SError::PaletteExhausted,
            ) && final(self).cursor() == old(self).cursor(),
    {
        if self.i >= PALETTE_SIZE {
            return Err(SError::PaletteExhausted);
        }
        let color = palette_entry(self.i);
        self.i = self.i + 1;
        Ok(color)
    }
}

impl Default for ColorWheel {
    fn default() -> (r: Self)
        ensures
            r.cursor() == 0,
    {
        ColorWheel { i: 0 }
    }
}

/// The groups among `presented` in the order in which each is first seen.
pub open spec fn first_seen(presented: Seq<Seq<char>>) -> Seq<Seq<char>>
    decreases presented.len(),
{
    if presented.len() == 0 {
        Seq::empty()
    } else {
        seen_after(first_seen(presented.drop_last()), presented.last())
    }
}

/// The groups seen once `key` has been presented after `seen`.
pub open spec fn seen_after(seen: Seq<Seq<char>>, key: Seq<char>) -> Seq<Seq<char>> {
    if seen.contains(key) {
        seen
    } else {
        seen.push(key)
    }
}

/// In a sequence that holds nothing twice, an element is found where it stands.
pub proof fn lemma_index_of(s: Seq<Seq<char>>, j: int)
    requires
        s.no_duplicates(),
        0 <= j < s.len(),
    ensures
        s.contains(s[j]),
        s.index_of(s[j]) == j,
{
    assert(s.contains(s[j]));
    let i = s.index_of(s[j]);
    assert(0 <= i < s.len() && s[i] == s[j]);
}

/// Presenting one more group moves no group that was seen before, and lets
/// no group stand twice.
pub proof fn lemma_seen_after_keeps(seen: Seq<Seq<char>>, key: Seq<char>, k: Seq<char>)
    requires
        seen.no_duplicates(),
        seen.contains(k),
    ensures
        seen_after(seen, key).no_duplicates(),
        seen_after(seen, key).contains(k),
        seen_after(seen, key).index_of(k) == seen.index_of(k),
{
    let after = seen_after(seen, key);
    let i = seen.index_of(k);
    assert(after[i] == k);
    assert forall|a: int, b: int| 0 <= a < b < after.len() implies after[a] != after[b] by {
        if b == seen.len() {
            assert(seen[a] != key);
        }
    }
    lemma_index_of(after, i);
}

/// Presenting a group lets no group stand twice, and the group is then among
/// those seen.
pub proof fn lemma_seen_after_distinct(seen: Seq<Seq<char>>, key: Seq<char>)
    requires
        seen.no_duplicates(),
    ensures
        seen_after(seen, key).no_duplicates(),
        seen_after(seen, key).contains(key),
{
    let after = seen_after(seen, key);
    if !seen.contains(key) {
        assert forall|a: int, b: int| 0 <= a < b < after.len() implies after[a] != after[b] by {
            if b == seen.len() {
                assert(seen[a] != key);
            }
        }
        assert(after[seen.len() as int] == key);
    }
}

/// The groups in first-seen order: none stands twice, and each of the
/// presented groups is among them.
pub proof fn lemma_first_seen(presented: Seq<Seq<char>>)
    ensures
        first_seen(presented).no_duplicates(),
        first_seen(presented).len() <= presented.len(),
        forall|i: int|
            0 <= i < presented.len() ==> first_seen(presented).contains(#[trigger] presented[i]),
        forall|k: Seq<char>| #[trigger]
            first_seen(presented).contains(k) ==> presented.contains(k),
    decreases presented.len(),
{
    if presented.len() > 0 {
        let before = first_seen(presented.drop_last());
        let after = first_seen(presented);
        lemma_first_seen(presented.drop_last());
        assert forall|a: int, b: int| 0 <= a < b < after.len() implies after[a] != after[b] by {
            if b == before.len() {
                assert(before[a] != presented.last());
            }
        }
        assert forall|i: int| 0 <= i < presented.len() implies after.contains(
            #[trigger] presented[i],
        ) by {
            if i < presented.len() - 1 {
                assert(presented.drop_last()[i] == presented[i]);
                let j = before.index_of(presented[i]);
                assert(after[j] == presented[i]);
            } else if before.contains(presented.last()) {
            } else {
                assert(after[before.len() as int] == presented[i]);
            }
        }
        assert forall|k: Seq<char>| #[trigger] after.contains(k) implies presented.contains(k) by {
            if before.contains(k) {
                let j = presented.drop_last().index_of(k);
                assert(presented[j] == k);
            } else {
                let j = after.index_of(k);
                assert(k == presented.last());
                assert(presented[presented.len() - 1] == k);
            }
        }
    }
}

/// A group keeps the place at which it was first seen, whatever is presented
/// after it.
pub proof fn lemma_first_seen_stable(presented: Seq<Seq<char>>, n: int, k: Seq<char>)
    requires
        0 <= n <= presented.len(),
        first_seen(presented.take(n)).contains(k),
    ensures
        first_seen(presented).contains(k),
        first_seen(presented).index_of(k) == first_seen(presented.take(n)).index_of(k),
    decreases presented.len() - n,
{
    if n == presented.len() {
        assert(presented.take(n) =~= presented);
    } else {
        let next = presented.take(n + 1);
        assert(next.drop_last() =~= presented.take(n));
        lemma_first_seen(presented.take(n));
        lemma_seen_after_keeps(first_seen(presented.take(n)), next.last(), k);
        lemma_first_seen_stable(presented, n + 1, k);
    }
}

/// A palette of nine colours serves at most nine groups, each once.
pub proof fn lemma_keys_bounded(m: ColorMap)
    requires
        m.wf(),
    ensures
        m.keys().len() <= PALETTE_SIZE,
        m.keys().no_duplicates(),
{
}

/// The colour that the `i`-th of the groups `presented` is given: that of the
/// palette at the place at which the group was first seen.
pub open spec fn assigned(presented: Seq<Seq<char>>, i: int) -> Seq<char> {
    palette(first_seen(presented.take(i + 1)).index_of(presented[i]))
}

/// Colours follow the order in which groups are first seen, and nothing
/// else: of the groups presented, two are given the same colour exactly
/// where they are the same group, as long as the palette serves them all.
pub proof fn lemma_assignment(presented: Seq<Seq<char>>, i: int, j: int)
    requires
        0 <= i < presented.len(),
        0 <= j < presented.len(),
        first_seen(presented).len() <= PALETTE_SIZE,
    ensures
        assigned(presented, i) == assigned(presented, j) <==> presented[i] == presented[j],
        assigned(presented, i) == palette(first_seen(presented).index_of(presented[i])),
{
    let all = first_seen(presented);
    lemma_first_seen(presented);
    lemma_first_seen(presented.take(i + 1));
    lemma_first_seen(presented.take(j + 1));
    assert(presented.take(i + 1)[i] == presented[i]);
    assert(presented.take(j + 1)[j] == presented[j]);
    lemma_first_seen_stable(presented, i + 1, presented[i]);
    lemma_first_seen_stable(presented, j + 1, presented[j]);
    let a = all.index_of(presented[i]);
    let b = all.index_of(presented[j]);
    assert(all[a] == presented[i] && all[b] == presented[j]);
    if presented[i] != presented[j] {
        lemma_palette_distinct(a, b);
    }
}

/// Two different groups never share a colour.
pub proof fn lemma_distinct_groups_distinct_colors(m: ColorMap, a: Seq<char>, b: Seq<char>)
    requires
        m.wf(),
        a != b,
        m.color_of(a) is Some,
        m.color_of(b) is Some,
    ensures
        m.color_of(a) != m.color_of(b),
{
    let i = m.keys().index_of(a);
    let j = m.keys().index_of(b);
    assert(m.keys()[i] == a && m.keys()[j] == b);
    lemma_palette_distinct(i, j);
}

/// The colours that groups have been given.
pub struct ColorMap {
    data: Vec<(String, &'static str)>,
    color_wheel: ColorWheel,
}

impl ColorMap {
    /// The groups that have a colour, in the order in which they got it.
    pub closed spec fn keys(&self) -> Seq<Seq<char>> {
        Seq::new(self.data@.len(), |j: int| self.data@[j].0@)
    }

    /// The representation is sound: every group has the colour of its place
    /// in the palette, and no group stands twice.
    pub closed spec fn wf(&self) -> bool {
        &&& self.data@.len() == self.color_wheel.cursor()
        &&& self.data@.len() <= PALETTE_SIZE
        &&& forall|j: int| 0 <= j < self.data@.len() ==> (#[trigger] self.data@[j]).1@ == palette(j)
        &&& self.keys().no_duplicates()
    }

    /// The colour of `key`, if it has one.
    pub open spec fn color_of(&self, key: Seq<char>) -> Option<Seq<char>> {
        if self.keys().contains(key) {
            Some(palette(self.keys().index_of(key)))
        } else {
            None
        }
    }

    /// The colour of `data_entry`: the one it was given before, or else the
    /// next unused colour of the palette, which it keeps from now on.
    pub fn get_color(&mut self, data_entry: &str) -> (r: Result<&'static str, SError>)
        requires
            old(self).wf(),
        ensures
            final(self).wf(),
            r is Err <==> !old(self).keys().contains(data_entry@) && old(self).keys().len()
                >= PALETTE_SIZE,
            r is Err ==> r == Err::<&'static str, SError>(SError::PaletteExhausted),
            r is Err ==> final(self).keys() == old(self).keys(),
            r is Ok ==> final(self).keys() == seen_after(old(self).keys(), data_entry@),
            r is Ok ==> final(self).color_of(data_entry@) == Some(r->Ok_0@),
            forall|k: Seq<char>| #[trigger]
                old(self).keys().contains(k) ==> final(self).color_of(k) == old(self).color_of(k),
    {
        let mut j: usize = 0;
        while j < self.data.len()
            invariant
                j <= self.data@.len(),
                *self == *old(self),
                self.wf(),
                forall|k: int| 0 <= k < j ==> self.keys()[k] != data_entry@,
            decreases self.data@.len() - j,
        {
            if same_text(self.data[j].0.as_str(), data_entry) {
                proof {
                    lemma_index_of(self.keys(), j as int);
                }
                return Ok(self.data[j].1);
            }
            j = j + 1;
        }
        assert(!self.keys().contains(data_entry@));
        let ghost before = self.keys();
        proof {
            assert forall|k: Seq<char>| #[trigger] before.contains(k) implies seen_after(
                before,
                data_entry@,
            ).contains(k) && seen_after(before, data_entry@).index_of(k) == before.index_of(k) by {
                lemma_seen_after_keeps(before, data_entry@, k);
            }
        }
        match self.color_wheel.next() {
            Err(e) => Err(e),
            Ok(color) => {
                self.data.push((data_entry.to_owned(), color));
                proof {
                    assert(self.keys() =~= before.push(data_entry@));
                    assert forall|a: int, b: int|
                        0 <= a < b < self.keys().len() implies self.keys()[a] != self.keys()[b] by {
                        if b == before.len() {
                            assert(before[a] != data_entry@);
                        }
                    }
                    lemma_index_of(self.keys(), before.len() as int);
                }
                Ok(color)
            },
        }
    }
}

impl Default for ColorMap {
    fn default() -> (r: Self)
        ensures
            r.wf(),
            r.keys() == Seq::<Seq<char>>::empty(),
    {
        let r = ColorMap { data: Vec::new(), color_wheel: ColorWheel::default() };
        assert(r.keys() =~= Seq::<Seq<char>>::empty());
        r
    }
}

} // verus!
