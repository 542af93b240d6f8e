use atomic_cell::AtomicCell;
use atomic_cell::AtomicCellConstInit;
use atomic_cell::AtomicCellNonZero;
use atomic_cell::AtomicCellStorable;
use atomic_cell::EMPTY_OPTION;
use atomic_cell::SPIN_LIMIT;
use std::sync::atomic::AtomicUsize;
use std::sync::atomic::Ordering;
use std::sync::Arc;
use std::sync::Mutex;

/// A referent that can wait in a table while a word stands for the reference to it.
trait Parked: Sized + 'static {
    fn places() -> &'static Mutex<Vec<Option<Arc<Self>>>>;
}

static NUMBERS: Mutex<Vec<Option<Arc<i32>>>> = Mutex::new(Vec::new());

impl Parked for i32 {
    fn places() -> &'static Mutex<Vec<Option<Arc<i32>>>> {
        &NUMBERS
    }
}

/// Counts its own destruction.
struct DropCount(&'static AtomicUsize);

impl Drop for DropCount {
    fn drop(&mut self) {
        self.0.fetch_add(1, Ordering::SeqCst);
    }
}

static COUNTED: Mutex<Vec<Option<Arc<DropCount>>>> = Mutex::new(Vec::new());

impl Parked for DropCount {
    fn places() -> &'static Mutex<Vec<Option<Arc<DropCount>>>> {
        &COUNTED
    }
}

/// A strong reference whose encoding is the number of the place where it waits,
/// counted from one. Decoding empties the place, so it fails on a word that was
/// decoded before.
struct Strong<P: Parked>(Arc<P>);

impl<P: Parked> Clone for Strong<P> {
    fn clone(&self) -> Self {
        Strong(self.0.clone())
    }
}

impl<P: Parked> AtomicCellStorable for Strong<P> {
    const TAKEN_VALUE: usize = usize::MAX;

    fn reserved(word: usize) -> bool {
        word == usize::MAX || word == EMPTY_OPTION
    }

    fn encodes(&self, _word: usize) -> bool {
        true
    }

    fn lemma_taken_reserved() {}

    fn lemma_encoding_not_reserved(&self, _word: usize) {}

    fn is_reserved(word: usize) -> bool {
        word == usize::MAX || word == EMPTY_OPTION
    }

    fn into_value(self) -> usize {
        let mut places = P::places().lock().unwrap();
        places.push(Some(self.0));
        places.len()
    }

    fn from_value(value: usize) -> Self {
        let mut places = P::places().lock().unwrap();
        Strong(places[value - 1].take().expect("a word is decoded once"))
    }
}

impl<P: Parked> AtomicCellNonZero for Strong<P> {
    fn lemma_empty_reserved() {}

    fn lemma_taken_not_empty() {}
}

/// A handle that breaks the contract on purpose: it encodes to the reserved word, so
/// that a cell made of it looks like one that a thread left in transfer.
#[derive(Clone)]
struct Abandoned;

impl AtomicCellStorable for Abandoned {
    const TAKEN_VALUE: usize = usize::MAX;

    fn reserved(word: usize) -> bool {
        word == usize::MAX
    }

    fn encodes(&self, _word: usize) -> bool {
        true
    }

    fn lemma_taken_reserved() {}

    fn lemma_encoding_not_reserved(&self, _word: usize) {}

    fn is_reserved(word: usize) -> bool {
        word == usize::MAX
    }

    fn into_value(self) -> usize {
        usize::MAX
    }

    fn from_value(_value: usize) -> Self {
        Abandoned
    }
}

/// A handle that breaks the contract on purpose: it encodes to a word that its type
/// reserves without parking it there, so that a cell made of it holds a word that
/// stands for no handle. Decoding fails the test.
#[derive(Clone)]
struct Hollow;

impl AtomicCellStorable for Hollow {
    const TAKEN_VALUE: usize = usize::MAX;

    fn reserved(word: usize) -> bool {
        word == usize::MAX || word == 17
    }

    fn encodes(&self, _word: usize) -> bool {
        true
    }

    fn lemma_taken_reserved() {}

    fn lemma_encoding_not_reserved(&self, _word: usize) {}

    fn is_reserved(word: usize) -> bool {
        word == usize::MAX || word == 17
    }

    fn into_value(self) -> usize {
        17
    }

    fn from_value(value: usize) -> Self {
        panic!("the reserved word {} was decoded", value)
    }
}

fn counted(drops: &'static AtomicUsize) -> Strong<DropCount> {
    Strong(Arc::new(DropCount(drops)))
}

#[test]
fn arc_cell() {
    let data1 = Arc::new(5);
    let data2 = Arc::new(6);

    let cell = AtomicCell::new(Strong(data1));
    assert_eq!(*cell.get().unwrap().0, 5);
    assert!(cell.set(Strong(data2)).is_ok());
    assert_eq!(*cell.get().unwrap().0, 6);
}

#[test]
fn cell_drops() {
    static DROPS: AtomicUsize = AtomicUsize::new(0);
    {
        let cell = AtomicCell::new(counted(&DROPS));
        drop(cell.into_inner());
    }
    assert_eq!(DROPS.load(Ordering::SeqCst), 1);
}

#[test]
fn get_returns_the_same_referent_every_time() {
    let data = Arc::new(41);
    let cell = AtomicCell::new(Strong(data.clone()));
    for round in 0..10usize {
        let copy = cell.get().unwrap();
        assert!(Arc::ptr_eq(&copy.0, &data));
        assert_eq!(*copy.0, 41);
        // The cell, `data` and `copy`.
        assert_eq!(Arc::strong_count(&data), 3, "round {}", round);
    }
    assert_eq!(Arc::strong_count(&data), 2);
    let held = cell.into_inner().unwrap();
    assert!(Arc::ptr_eq(&held.0, &data));
}

#[test]
fn get_gives_an_independent_clone() {
    let cell = AtomicCell::new(Strong(Arc::new(8)));
    let copy = cell.get().unwrap();
    let replaced = cell.set(Strong(Arc::new(9))).ok().unwrap();
    assert!(Arc::ptr_eq(&copy.0, &replaced.0));
    drop(replaced);
    drop(cell.into_inner());
    assert_eq!(*copy.0, 8);
    assert_eq!(Arc::strong_count(&copy.0), 1);
}

#[test]
fn set_returns_what_the_cell_held() {
    let first = Arc::new(1);
    let second = Arc::new(2);
    let third = Arc::new(3);
    let cell = AtomicCell::new(Strong(first.clone()));

    let previous = cell.set(Strong(second.clone())).ok().unwrap();
    assert!(Arc::ptr_eq(&previous.0, &first));
    assert!(Arc::ptr_eq(&cell.get().unwrap().0, &second));

    let previous = cell.set(Strong(third.clone())).ok().unwrap();
    assert!(Arc::ptr_eq(&previous.0, &second));
    assert!(Arc::ptr_eq(&cell.get().unwrap().0, &third));
}

#[test]
fn set_moves_the_handle_without_cloning_it() {
    let data = Arc::new(7);
    let cell = AtomicCell::new(Strong(Arc::new(0)));
    assert!(cell.set(Strong(data.clone())).is_ok());
    assert_eq!(Arc::strong_count(&data), 2);
    drop(cell.into_inner());
    assert_eq!(Arc::strong_count(&data), 1);
}

#[test]
fn new_moves_the_handle_without_cloning_it() {
    let data = Arc::new(7);
    let cell = AtomicCell::new(Strong(data.clone()));
    assert_eq!(Arc::strong_count(&data), 2);
    drop(cell.into_inner());
    assert_eq!(Arc::strong_count(&data), 1);
}

#[test]
fn sets_and_the_end_of_the_cell_release_every_handle_once() {
    static DROPS: AtomicUsize = AtomicUsize::new(0);
    let sets = 25;
    let cell = AtomicCell::new(counted(&DROPS));
    for done in 0..sets {
        assert_eq!(DROPS.load(Ordering::SeqCst), done);
        drop(cell.set(counted(&DROPS)));
    }
    assert_eq!(DROPS.load(Ordering::SeqCst), sets);
    drop(cell.into_inner());
    assert_eq!(DROPS.load(Ordering::SeqCst), sets + 1);
}

#[test]
fn gets_release_nothing_but_their_clones() {
    static DROPS: AtomicUsize = AtomicUsize::new(0);
    let cell = AtomicCell::new(counted(&DROPS));
    for _ in 0..10 {
        drop(cell.get());
    }
    assert_eq!(DROPS.load(Ordering::SeqCst), 0);
    drop(cell.into_inner());
    assert_eq!(DROPS.load(Ordering::SeqCst), 1);
}

#[test]
fn a_cell_that_is_dropped_keeps_its_handle() {
    static DROPS: AtomicUsize = AtomicUsize::new(0);
    {
        let _cell = AtomicCell::new(counted(&DROPS));
    }
    assert_eq!(DROPS.load(Ordering::SeqCst), 0);
}

#[test]
fn many_writers_leave_one_of_their_handles() {
    static DROPS: AtomicUsize = AtomicUsize::new(0);
    struct Tagged {
        tag: usize,
        _count: DropCount,
    }
    static TAGGED: Mutex<Vec<Option<Arc<Tagged>>>> = Mutex::new(Vec::new());
    impl Parked for Tagged {
        fn places() -> &'static Mutex<Vec<Option<Arc<Tagged>>>> {
            &TAGGED
        }
    }

    let writers = 4;
    let rounds = 50;
    let cell = AtomicCell::new(Strong(Arc::new(Tagged { tag: 0, _count: DropCount(&DROPS) })));
    let mut created = 1;
    let mut returned = vec![false; writers * rounds + 1];
    // The writers take turns, one `set` each.
    for round in 0..rounds {
        for writer in 0..writers {
            let tag = 1 + round * writers + writer;
            let new = Strong(Arc::new(Tagged { tag, _count: DropCount(&DROPS) }));
            created += 1;
            let old = cell.set(new).ok().unwrap();
            assert_eq!(old.0.tag, tag - 1);
            assert!(!returned[old.0.tag], "a handle came out twice");
            returned[old.0.tag] = true;
        }
    }
    let survivor = cell.get().unwrap();
    assert_eq!(survivor.0.tag, writers * rounds);
    assert!(!returned[survivor.0.tag]);
    drop(survivor);
    assert_eq!(DROPS.load(Ordering::SeqCst), created - 1);
    drop(cell.into_inner());
    assert_eq!(DROPS.load(Ordering::SeqCst), created);
}

#[test]
fn take_leaves_the_default_handle() {
    let data = Arc::new(3);
    let cell = AtomicCell::new(Some(Strong(data.clone())));
    let previous = cell.take().unwrap();
    assert!(Arc::ptr_eq(&previous.unwrap().0, &data));
    assert!(cell.get().unwrap().is_none());
    assert!(cell.take().unwrap().is_none());
    assert!(cell.into_inner().unwrap().is_none());
}

#[test]
fn optional_cell_holds_and_gives_up_a_handle() {
    let data = Arc::new(12);
    let cell: AtomicCell<Option<Strong<i32>>> = AtomicCell::new(None);
    assert!(cell.get().unwrap().is_none());
    let previous = cell.set(Some(Strong(data.clone()))).ok().unwrap();
    assert!(previous.is_none());
    assert_eq!(*cell.get().unwrap().unwrap().0, 12);
    let previous = cell.set(None).ok().unwrap();
    assert!(Arc::ptr_eq(&previous.unwrap().0, &data));
    assert!(cell.get().unwrap().is_none());
}

#[test]
fn const_new_holds_the_default_handle() {
    let cell: AtomicCell<Option<Strong<i32>>> = AtomicCell::const_new();
    assert!(cell.get().unwrap().is_none());
    assert!(cell.set(Some(Strong(Arc::new(4)))).is_ok());
    assert_eq!(*cell.get().unwrap().unwrap().0, 4);
}

#[test]
fn default_cell_holds_the_default_handle() {
    let cell: AtomicCell<Option<Strong<i32>>> = AtomicCell::default();
    assert!(cell.get().unwrap().is_none());
    assert!(cell.into_inner().unwrap().is_none());
}

#[test]
fn optional_handles_encode_absence_as_the_empty_word() {
    assert_eq!(EMPTY_OPTION, 0);
    assert_eq!(None::<Strong<i32>>.into_value(), EMPTY_OPTION);
    assert!(Option::<Strong<i32>>::from_value(EMPTY_OPTION).is_none());
    assert_eq!(<Option<Strong<i32>> as AtomicCellConstInit>::DEFAULT_VALUE, EMPTY_OPTION);
}

#[test]
fn optional_handles_encode_a_handle_as_the_handle_does() {
    let data = Arc::new(77);
    let word = Some(Strong(data.clone())).into_value();
    assert_ne!(word, EMPTY_OPTION);
    assert_ne!(word, <Option<Strong<i32>> as AtomicCellStorable>::TAKEN_VALUE);
    // The word is one of the handle inside: the handle's own decoding accepts it.
    let plain = Strong::<i32>::from_value(word);
    assert!(Arc::ptr_eq(&plain.0, &data));
    let word = plain.into_value();
    let back = Option::<Strong<i32>>::from_value(word).unwrap();
    assert!(Arc::ptr_eq(&back.0, &data));
}

#[test]
fn optional_handles_reserve_the_word_of_the_handle_inside() {
    assert_eq!(<Strong<i32> as AtomicCellStorable>::TAKEN_VALUE, usize::MAX);
    assert_eq!(<Option<Strong<i32>> as AtomicCellStorable>::TAKEN_VALUE, usize::MAX);
}

#[test]
fn spin_limit_is_the_largest_count() {
    assert_eq!(SPIN_LIMIT, usize::MAX);
}

#[test]
fn a_cell_without_attempts_gives_up_at_once() {
    let data = Arc::new(1);
    let other = Arc::new(2);
    let cell = AtomicCell::with_spin_limit(Some(Strong(data.clone())), 0);
    assert!(cell.get().is_none());
    assert!(cell.take().is_none());
    match cell.set(Some(Strong(other.clone()))) {
        Ok(_) => panic!("the word was claimed without an attempt"),
        Err(back) => assert!(Arc::ptr_eq(&back.unwrap().0, &other)),
    }
    // The cell is as it was.
    assert!(Arc::ptr_eq(&cell.into_inner().unwrap().unwrap().0, &data));
}

#[test]
fn a_cell_with_one_attempt_works_when_nobody_interferes() {
    let cell = AtomicCell::with_spin_limit(Strong(Arc::new(10)), 1);
    // A weak exchange may fail for no reason, so one attempt may not be enough; a
    // failure leaves the cell as it was.
    let mut seen = None;
    for _ in 0..1000 {
        if let Some(copy) = cell.get() {
            seen = Some(*copy.0);
            break;
        }
    }
    assert_eq!(seen, Some(10));
}

#[test]
fn a_word_that_encodes_no_handle_is_never_decoded() {
    let cell = AtomicCell::with_spin_limit(Hollow, 5);
    assert!(cell.get().is_none());
    assert!(cell.set(Hollow).is_err());
    // The word was put back as it was found each time: it is still the reserved one,
    // not the word of a cell in transfer.
    assert!(cell.get().is_none());
    assert!(cell.into_inner().is_none());
}

#[test]
fn reserved_words_of_an_optional_handle_leave_the_empty_word_out() {
    assert!(Strong::<i32>::is_reserved(EMPTY_OPTION));
    assert!(Strong::<i32>::is_reserved(usize::MAX));
    assert!(!Strong::<i32>::is_reserved(1));
    assert!(!Option::<Strong<i32>>::is_reserved(EMPTY_OPTION));
    assert!(Option::<Strong<i32>>::is_reserved(usize::MAX));
    assert!(!Option::<Strong<i32>>::is_reserved(1));
}

#[test]
fn a_cell_left_in_transfer_makes_every_operation_give_up() {
    let cell = AtomicCell::with_spin_limit(Abandoned, 5);
    assert!(cell.get().is_none());
    assert!(cell.set(Abandoned).is_err());
    assert!(cell.get().is_none());
    assert!(cell.into_inner().is_none());
}
