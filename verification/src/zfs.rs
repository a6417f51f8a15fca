//! The storage pools and their member devices, as the listing of pools
//! states them: a line for each pool that begins with its name, followed by
//! an indented line for each of its members.

use vstd::prelude::*;
use vstd::string::*;
use crate::parse::{
    before, chars_of, find_char, pieces, skip_whitespace, split, split_chars, text_of,
    trimmed_start,
};

verus! {

/// The pools of the listing.
pub struct ZfsList {
    pub pools: Vec<ZfsListPool>,
}

/// A pool and its members.
pub struct ZfsListPool {
    pub pool_name: String,
    pub vdevs: Vec<ZfsListVDev>,
}

/// A member of a pool.
pub struct ZfsListVDev {
    pub vdev_name: String,
}

/// What is known of a pool: its name and the names of its members.
pub struct PoolModel {
    pub name: Seq<char>,
    pub vdevs: Seq<Seq<char>>,
}

impl View for ZfsListVDev {
    type V = Seq<char>;

    open spec fn view(&self) -> Seq<char> {
        self.vdev_name@
    }
}

impl View for ZfsListPool {
    type V = PoolModel;

    open spec fn view(&self) -> PoolModel {
        PoolModel {
            name: self.pool_name@,
            vdevs: Seq::new(self.vdevs@.len(), |i: int| self.vdevs@[i]@),
        }
    }
}

impl View for ZfsList {
    type V = Seq<PoolModel>;

    open spec fn view(&self) -> Seq<PoolModel> {
        Seq::new(self.pools@.len(), |i: int| self.pools@[i]@)
    }
}

impl Default for ZfsListVDev {
    fn default() -> (r: Self)
        ensures
            r@ == Seq::<char>::empty(),
    {
        ZfsListVDev { vdev_name: String::new() }
    }
}

impl Default for ZfsListPool {
    fn default() -> (r: Self)
        ensures
            r@ == unnamed_pool(),
    {
        let r = ZfsListPool { pool_name: String::new(), vdevs: Vec::new() };
        assert(r@.vdevs =~= Seq::<Seq<char>>::empty());
        r
    }
}

impl Default for ZfsList {
    fn default() -> (r: Self)
        ensures
            r@ == Seq::<PoolModel>::empty(),
    {
        let r = ZfsList { pools: Vec::new() };
        assert(r@ =~= Seq::<PoolModel>::empty());
        r
    }
}

/// A pool without a name and without members.
pub open spec fn unnamed_pool() -> PoolModel {
    PoolModel { name: Seq::empty(), vdevs: Seq::empty() }
}

/// A line that names a member: it begins with a tab.
pub open spec fn is_member_line(line: Seq<char>) -> bool {
    line.len() > 0 && line[0] == '\t'
}

/// The name that a line begins with: what stands before its first tab.
pub open spec fn pool_of_line(line: Seq<char>) -> Seq<char> {
    before(line, '\t')
}

/// The member that a line names: after its indentation, what stands before
/// the next tab.
pub open spec fn vdev_of_line(line: Seq<char>) -> Seq<char> {
    before(trimmed_start(line), '\t')
}

/// The pools that `lines` state. A line that names a member adds it to the
/// pool of the last line before it that names a pool. Members that come
/// before any pool belong to a pool without a name.
pub open spec fn pools_of_lines(lines: Seq<Seq<char>>) -> Seq<PoolModel>
    decreases lines.len(),
{
    if lines.len() == 0 {
        seq![unnamed_pool()]
    } else {
        let pools = pools_of_lines(lines.drop_last());
        let line = lines.last();
        if is_member_line(line) {
            pools.update(
                pools.len() - 1,
                PoolModel {
                    name: pools.last().name,
                    vdevs: pools.last().vdevs.push(vdev_of_line(line)),
                },
            )
        } else if lines.len() == 1 {
            seq![PoolModel { name: pool_of_line(line), vdevs: Seq::empty() }]
        } else {
            pools.push(PoolModel { name: pool_of_line(line), vdevs: Seq::empty() })
        }
    }
}

/// There is always a pool to add a member to.
pub proof fn lemma_pools_of_lines(lines: Seq<Seq<char>>)
    ensures
        pools_of_lines(lines).len() >= 1,
    decreases lines.len(),
{
    if lines.len() > 0 {
        lemma_pools_of_lines(lines.drop_last());
    }
}

impl ZfsList {
    /// Reads the listing `res`.
    pub fn execute(res: &str) -> (r: Self)
        ensures
            r@ == pools_of_lines(split(res@, '\n')),
    {
        let text = chars_of(res);
        let lines = split_chars(text.as_slice(), '\n');
        let mut zfslist = ZfsList::default();
        let mut current_pool = ZfsListPool::default();
        let mut i: usize = 0;
        assert(pieces(lines@).take(0) =~= Seq::<Seq<char>>::empty());
        assert(zfslist@.push(current_pool@) =~= seq![unnamed_pool()]);
        while i < lines.len()
            invariant
                i <= lines@.len(),
                zfslist@.push(current_pool@) == pools_of_lines(pieces(lines@).take(i as int)),
            decreases lines@.len() - i,
        {
            let line = lines[i].as_slice();
            let ghost upto = pieces(lines@).take(i + 1);
            let ghost pools = pools_of_lines(pieces(lines@).take(i as int));
            proof {
                assert(upto.drop_last() =~= pieces(lines@).take(i as int));
                assert(upto.last() == line@);
                assert(zfslist@.push(current_pool@).last() == current_pool@);
                assert(pieces(lines@).take(0) =~= Seq::<Seq<char>>::empty());
            }
            if !(line.len() > 0 && line[0] == '\t') {
                let name_end: usize = find_char(line, '\t');
                if i != 0 {
                    zfslist.pools.push(current_pool);
                    current_pool = ZfsListPool::default();
                    assert(zfslist@ =~= pools);
                }
                current_pool.pool_name = text_of(line, 0, name_end);
                proof {
                    if i == 0 {
                        assert(current_pool@.vdevs =~= Seq::<Seq<char>>::empty());
                    }
                    assert(zfslist@.push(current_pool@) =~= pools_of_lines(upto));
                }
            } else {
                let ghost members = current_pool@.vdevs;
                current_pool.vdevs.push(ZfsListVDev::from_chars(line));
                proof {
                    assert(current_pool@.vdevs =~= members.push(vdev_of_line(line@)));
                    assert(zfslist@.push(current_pool@) =~= pools_of_lines(upto));
                }
            }
            i = i + 1;
        }
        proof {
            assert(pieces(lines@).take(lines@.len() as int) =~= pieces(lines@));
        }
        let ghost done = zfslist@.push(current_pool@);
        zfslist.pools.push(current_pool);
        assert(zfslist@ =~= done);
        zfslist
    }
}

impl ZfsListVDev {
    /// Reads the member that `line` names.
    pub fn from_vdev_line(line: &str) -> (r: Self)
        ensures
            r@ == vdev_of_line(line@),
    {
        let text = chars_of(line);
        Self::from_chars(text.as_slice())
    }

    fn from_chars(line: &[char]) -> (r: Self)
        ensures
            r@ == vdev_of_line(line@),
    {
        let from: usize = skip_whitespace(line);
        let ghost rest = line@.subrange(from as int, line@.len() as int);
        let mut to: usize = from;
        assert(rest.skip(0) =~= rest);
        while to < line.len() && line[to] != '\t'
            invariant
                from <= to <= line@.len(),
                rest == line@.subrange(from as int, line@.len() as int),
                crate::parse::position(rest, '\t') == (to - from) + crate::parse::position(
                    rest.skip(to - from),
                    '\t',
                ),
            decreases line@.len() - to,
        {
            proof {
                assert(rest.skip(to - from).drop_first() =~= rest.skip(to - from + 1));
            }
            to = to + 1;
        }
        let name = text_of(line, from, to);
        assert(name@ =~= before(rest, '\t'));
        ZfsListVDev { vdev_name: name }
    }
}

} // verus!
