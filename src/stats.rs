//! Counter reporting: the sinks that protocol events are reported to.
use vstd::prelude::*;
use vstd::string::*;

verus! {

/// The dotted name of a counter path: its segments joined by `.`.
pub open spec fn dotted(parts: Seq<Seq<char>>) -> Seq<char>
    decreases parts.len(),
{
    if parts.len() == 0 {
        Seq::empty()
    } else if parts.len() == 1 {
        parts[0]
    } else {
        dotted(parts.drop_last()) + seq!['.'] + parts.last()
    }
}

/// The segments of a path, as character sequences.
pub open spec fn path_view(path: &[&str]) -> Seq<Seq<char>> {
    path@.map_values(|s: &str| s@)
}

/// Joins the segments of a counter path with `.`, as in `node.handshake.success`.
pub fn joined_path(path: &[&str]) -> (r: String)
    ensures
        r@ == dotted(path_view(path)),
{
    let mut r = String::new();
    let mut i: usize = 0;
    while i < path.len()
        invariant
            i <= path@.len(),
            r@ == dotted(path_view(path).take(i as int)),
        decreases path@.len() - i,
    {
        let ghost before = path_view(path).take(i as int);
        assert(path_view(path).take(i as int + 1).drop_last() =~= before);
        assert(path_view(path).take(i as int + 1).last() == path[i as int]@);
        if i > 0 {
            proof {
                reveal_strlit(".");
            }
            r.append(".");
        }
        r.append(path[i]);
        i = i + 1;
    }
    assert(path_view(path).take(path@.len() as int) =~= path_view(path));
    r
}

/// Receives counter increments and decrements over hierarchical paths.
///
/// A path names one counter, its segments in order of increasing
/// specificity, as in `&["handshakes", "Billy", "Tuesday"]`.
pub trait StatCollector: Send + Sync {
    /// Increments the named counter by one.
    fn increment(&self, path: &[&str]);

    /// Decrements the named counter by one.
    fn decrement(&self, path: &[&str]);
}

/// A sink that discards every event.
pub struct NullStatCollector;

impl NullStatCollector {
    pub fn new() -> (r: NullStatCollector)
        ensures
            r == NullStatCollector,
    {
        NullStatCollector
    }
}

impl StatCollector for NullStatCollector {
    fn increment(&self, path: &[&str]) {
    }

    fn decrement(&self, path: &[&str]) {
    }
}

/// A sink that hands every event on to each of its sinks, in order.
pub struct MultiStatCollector<'a> {
    collectors: Vec<Box<dyn StatCollector + 'a>>,
}

impl<'a> MultiStatCollector<'a> {
    /// A sink broadcasting to the given sinks.
    pub fn new(collectors: Vec<Box<dyn StatCollector + 'a>>) -> (r: MultiStatCollector<'a>)
        ensures
            r.len() == collectors@.len(),
    {
        MultiStatCollector { collectors }
    }

    pub closed spec fn len(&self) -> nat {
        self.collectors@.len()
    }

    /// The number of sinks events are handed to.
    pub fn count(&self) -> (r: usize)
        ensures
            r == self.len(),
    {
        self.collectors.len()
    }
}

impl<'a> StatCollector for MultiStatCollector<'a> {
    fn increment(&self, path: &[&str]) {
        let mut i: usize = 0;
        while i < self.collectors.len()
            decreases self.collectors@.len() - i,
        {
            self.collectors[i].increment(path);
            i = i + 1;
        }
    }

    fn decrement(&self, path: &[&str]) {
        let mut i: usize = 0;
        while i < self.collectors.len()
            decreases self.collectors@.len() - i,
        {
            self.collectors[i].decrement(path);
            i = i + 1;
        }
    }
}

} // verus!
