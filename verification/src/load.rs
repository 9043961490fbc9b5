//! Data of devices that is read when it is first needed.

use vstd::prelude::*;
use crate::table::Table;
use crate::value::Value;

verus! {

/// So many reads may fail in a row before a device is given up.
pub const READ_BUDGET: u8 = 3;

/// What is known of the data of one device.
#[derive(Debug, PartialEq, Eq)]
pub enum Load<T> {
    Unknown,
    Loading,
    Ready(T),
    /// Reading it failed too often; the text says why.
    Failed(String),
    /// The device has no such data; the text says why.
    Unsupported(String),
}

/// The meaning of a [`Load`].
pub enum LoadView<V> {
    Unknown,
    Loading,
    Ready(V),
    Failed(Seq<char>),
    Unsupported(Seq<char>),
}

impl<T: DeepView> DeepView for Load<T> {
    type V = LoadView<<T as DeepView>::V>;

    open spec fn deep_view(&self) -> LoadView<<T as DeepView>::V> {
        match self {
            Load::Unknown => LoadView::Unknown,
            Load::Loading => LoadView::Loading,
            Load::Ready(data) => LoadView::Ready(data.deep_view()),
            Load::Failed(why) => LoadView::Failed(why@),
            Load::Unsupported(why) => LoadView::Unsupported(why@),
        }
    }
}

impl<T: Value> Value for Load<T> {
    fn same(&self, other: &Self) -> (r: bool) {
        match (self, other) {
            (Load::Unknown, Load::Unknown) => true,
            (Load::Loading, Load::Loading) => true,
            (Load::Ready(a), Load::Ready(b)) => a.same(b),
            (Load::Failed(a), Load::Failed(b)) => a.same(b),
            (Load::Unsupported(a), Load::Unsupported(b)) => a.same(b),
            _ => false,
        }
    }

    fn copy(&self) -> (r: Self) {
        match self {
            Load::Unknown => Load::Unknown,
            Load::Loading => Load::Loading,
            Load::Ready(data) => Load::Ready(data.copy()),
            Load::Failed(why) => Load::Failed(why.copy()),
            Load::Unsupported(why) => Load::Unsupported(why.copy()),
        }
    }
}

/// Why a device could not be read or written.
#[derive(Clone, Copy, Debug, PartialEq, Eq, Structural)]
pub enum WriteErrorKind {
    /// The device lacks the feature.
    FeatureUnsupported,
    /// The device lists no DPI values.
    EmptyDpiList,
    /// Anything that may pass: a device that is busy or asleep.
    Other,
}

/// A failed read or write.
#[derive(Debug, PartialEq, Eq)]
pub struct WriteError {
    pub kind: WriteErrorKind,
    pub message: String,
}

/// Whether reading the DPI again is of no use.
pub fn dpi_error_is_permanent(error: &WriteError) -> (r: bool)
    ensures
        r == (error.kind == WriteErrorKind::FeatureUnsupported || error.kind == WriteErrorKind::EmptyDpiList),
{
    error.kind == WriteErrorKind::FeatureUnsupported || error.kind == WriteErrorKind::EmptyDpiList
}

/// Whether reading SmartShift again is of no use.
pub fn smartshift_error_is_permanent(error: &WriteError) -> (r: bool)
    ensures
        r == (error.kind == WriteErrorKind::FeatureUnsupported),
{
    error.kind == WriteErrorKind::FeatureUnsupported
}

/// Data of devices, by key.
pub struct LazyDeviceData<T> {
    pub status: Table<String, Load<T>>,
    /// The failed reads in a row.
    pub attempts: Table<String, u8>,
}

/// The failed reads of `key` in a row, with one more.
pub open spec fn tried_once_more(attempts: Map<Seq<char>, u8>, key: Seq<char>) -> int {
    if !attempts.dom().contains(key) {
        1
    } else if attempts[key] == u8::MAX {
        u8::MAX as int
    } else {
        attempts[key] + 1
    }
}

/// The meaning of all statuses, by key.
pub open spec fn load_views<T: DeepView>(status: Map<Seq<char>, Load<T>>) -> Map<
    Seq<char>,
    LoadView<<T as DeepView>::V>,
> {
    Map::new(|k: Seq<char>| status.dom().contains(k), |k: Seq<char>| status[k].deep_view())
}

impl<T: Value> LazyDeviceData<T> {
    /// The meaning of all statuses, by key.
    pub open spec fn loads(&self) -> Map<Seq<char>, LoadView<<T as DeepView>::V>> {
        load_views(self.status@)
    }

    /// The status of `key`; unknown where none is recorded.
    pub open spec fn load(&self, key: Seq<char>) -> LoadView<<T as DeepView>::V> {
        if self.loads().dom().contains(key) {
            self.loads()[key]
        } else {
            LoadView::Unknown
        }
    }

    /// Nothing is known.
    pub fn new() -> (r: Self)
        ensures
            r.loads() == Map::<Seq<char>, LoadView<<T as DeepView>::V>>::empty(),
            r.attempts@ == Map::<Seq<char>, u8>::empty(),
    {
        let r = LazyDeviceData { status: Table::new(), attempts: Table::new() };
        assert(r.loads() =~= Map::<Seq<char>, LoadView<<T as DeepView>::V>>::empty());
        r
    }

    /// What is recorded of `key`.
    pub fn get(&self, key: &String) -> (r: Option<&Load<T>>)
        ensures
            match r {
                Some(load) => self.loads().dom().contains(key@) && load.deep_view() == self.loads()[key@],
                None => !self.loads().dom().contains(key@),
            },
    {
        self.status.get(key)
    }

    /// The status of `key`.
    pub fn status(&self, key: &String) -> (r: Load<T>)
        ensures
            r.deep_view() == self.load(key@),
    {
        match self.get(key) {
            Some(load) => load.copy(),
            None => Load::Unknown,
        }
    }

    /// Whether nothing is recorded of `key`, so that it has to be read.
    pub fn unqueried(&self, key: &String) -> (r: bool)
        ensures
            r == !self.loads().dom().contains(key@),
    {
        !self.status.contains(key)
    }

    fn put(&mut self, key: &String, load: Load<T>)
        ensures
            final(self).loads() == old(self).loads().insert(key@, load.deep_view()),
            final(self).attempts == old(self).attempts,
    {
        let ghost before = self.loads();
        self.status.insert(key.copy(), load);
        assert(self.loads() =~= before.insert(key@, load.deep_view()));
    }

    /// Forgets the status of `key`, so that it is read again.
    pub fn retry(&mut self, key: &String)
        ensures
            final(self).loads() == old(self).loads().remove(key@),
            final(self).attempts == old(self).attempts,
    {
        let ghost before = self.loads();
        let _ = self.status.remove(key);
        assert(self.loads() =~= before.remove(key@));
    }

    /// Notes that `key` is being read.
    pub fn mark_loading(&mut self, key: &String)
        ensures
            final(self).loads() == old(self).loads().insert(key@, LoadView::Loading),
            final(self).attempts == old(self).attempts,
    {
        self.put(key, Load::Loading);
    }

    /// Forgets that `key` is being read, if it is: the reader went away.
    pub fn clear_loading(&mut self, key: &String)
        ensures
            final(self).loads() == if old(self).load(key@) is Loading {
                old(self).loads().remove(key@)
            } else {
                old(self).loads()
            },
            final(self).attempts == old(self).attempts,
    {
        let loading = match self.get(key) {
            Some(Load::Loading) => true,
            _ => false,
        };
        if loading {
            self.retry(key);
        }
    }

    /// Forgets all of `key`.
    pub fn remove(&mut self, key: &String)
        ensures
            final(self).loads() == old(self).loads().remove(key@),
            final(self).attempts@ == old(self).attempts@.remove(key@),
    {
        self.retry(key);
        let _ = self.attempts.remove(key);
    }

    /// Forgets the devices that are not in `present`.
    pub fn retain_present(&mut self, present: &Vec<String>)
        ensures
            final(self).loads() == old(self).loads().restrict(present.deep_view().to_set()),
            final(self).attempts@ == old(self).attempts@.restrict(present.deep_view().to_set()),
    {
        let ghost before = self.loads();
        self.status.retain_keys(present);
        self.attempts.retain_keys(present);
        assert(self.loads() =~= before.restrict(present.deep_view().to_set()));
    }

    /// Records data that is known.
    pub fn set_ready(&mut self, key: &String, data: T)
        ensures
            final(self).loads() == old(self).loads().insert(key@, LoadView::Ready(data.deep_view())),
            final(self).attempts@ == old(self).attempts@.remove(key@),
    {
        self.put(key, Load::Ready(data));
        let _ = self.attempts.remove(key);
    }

    /// Takes in what a read came to. The answer of a device that is gone is
    /// forgotten with the device, that of an old route is not used. A read that
    /// failed is made again until the budget is used up, unless that would be of
    /// no use. Says whether data was recorded.
    pub fn store(
        &mut self,
        key: &String,
        result: Result<T, WriteError>,
        permanent: bool,
        matches_route: bool,
        still_present: bool,
    ) -> (r: bool)
        ensures
            r == (still_present && matches_route && result is Ok),
            !still_present ==> {
                &&& final(self).loads() == old(self).loads().remove(key@)
                &&& final(self).attempts@ == old(self).attempts@.remove(key@)
            },
            still_present && !matches_route ==> {
                &&& final(self).loads() == if old(self).load(key@) is Loading {
                    old(self).loads().remove(key@)
                } else {
                    old(self).loads()
                }
                &&& final(self).attempts == old(self).attempts
            },
            still_present && matches_route ==> match result {
                Ok(data) => {
                    &&& final(self).loads() == old(self).loads().insert(key@, LoadView::Ready(data.deep_view()))
                    &&& final(self).attempts@ == old(self).attempts@.remove(key@)
                },
                Err(error) => if permanent {
                    &&& final(self).loads() == old(self).loads().insert(key@, LoadView::Unsupported(error.message@))
                    &&& final(self).attempts == old(self).attempts
                } else {
                    let tries = tried_once_more(old(self).attempts@, key@);
                    &&& final(self).attempts@ == old(self).attempts@.insert(key@, tries as u8)
                    &&& final(self).loads() == if tries >= READ_BUDGET {
                        old(self).loads().insert(key@, LoadView::Failed(error.message@))
                    } else {
                        old(self).loads().remove(key@)
                    }
                },
            },
    {
        if !still_present {
            self.remove(key);
            return false;
        }
        if !matches_route {
            self.clear_loading(key);
            return false;
        }
        match result {
            Ok(data) => {
                self.set_ready(key, data);
                true
            },
            Err(error) => {
                if permanent {
                    self.put(key, Load::Unsupported(error.message));
                } else {
                    let tries: u8 = match self.attempts.get(key) {
                        Some(n) => n.saturating_add(1),
                        None => 1,
                    };
                    self.attempts.insert(key.copy(), tries);
                    if tries >= READ_BUDGET {
                        self.put(key, Load::Failed(error.message));
                    } else {
                        self.retry(key);
                    }
                }
                false
            },
        }
    }
}

/// Every failed read counts once, up to the end of the machine's range.
pub proof fn law_failed_reads_are_counted(attempts: Map<Seq<char>, u8>, key: Seq<char>)
    ensures
        !attempts.dom().contains(key) ==> tried_once_more(attempts, key) == 1,
        attempts.dom().contains(key) && attempts[key] < u8::MAX ==> tried_once_more(attempts, key) == attempts[key] + 1,
        attempts.dom().contains(key) && attempts[key] == u8::MAX ==> tried_once_more(attempts, key) == u8::MAX,
{
}

/// A device is shown with what is recorded of it, and as unknown if nothing is.
pub proof fn law_recorded_status_is_shown<T: Value>(data: LazyDeviceData<T>, key: Seq<char>)
    ensures
        data.loads().dom().contains(key) <==> data.status@.dom().contains(key),
        data.status@.dom().contains(key) ==> data.load(key) == data.status@[key].deep_view(),
        !data.status@.dom().contains(key) ==> data.load(key) is Unknown,
{
}

/// A status means what it is: nothing is taken for something else.
pub proof fn law_status_keeps_its_kind<T: Value>(load: Load<T>)
    ensures
        load is Unknown <==> load.deep_view() is Unknown,
        load is Loading <==> load.deep_view() is Loading,
        load matches Load::Ready(data) ==> load.deep_view() == LoadView::<<T as DeepView>::V>::Ready(data.deep_view()),
        load matches Load::Failed(text) ==> load.deep_view() == LoadView::<<T as DeepView>::V>::Failed(text@),
        load matches Load::Unsupported(text) ==> load.deep_view() == LoadView::<<T as DeepView>::V>::Unsupported(text@),
{
}

/// A device is read three times before its failure is shown.
pub proof fn law_limit_of_the_reads()
    ensures
        READ_BUDGET == 3,
{
}

} // verus!
