use atomic_cell::claim_step;
use atomic_cell::AtomicCell;
use atomic_cell::AtomicCellStorable;
use atomic_cell::Claim;

/// A handle that is nothing but its word.
#[derive(Debug, PartialEq)]
struct Ticket(usize);

impl AtomicCellStorable for Ticket {
    const TAKEN_VALUE: usize = usize::MAX;

    fn reserved(word: usize) -> bool {
        word == usize::MAX
    }

    fn encodes(&self, word: usize) -> bool {
        self.0 == word
    }

    fn lemma_taken_reserved() {}

    fn lemma_encoding_not_reserved(&self, _word: usize) {}

    fn is_reserved(word: usize) -> bool {
        word == usize::MAX
    }

    fn into_value(self) -> usize {
        self.0
    }

    fn from_value(value: usize) -> Self {
        Ticket(value)
    }
}

#[test]
fn an_exchange_that_replaced_a_word_claims_it() {
    assert_eq!(claim_step(usize::MAX, Ok(5)), Claim::Claimed(5));
    assert_eq!(claim_step(usize::MAX, Ok(0)), Claim::Claimed(0));
    assert_eq!(claim_step(usize::MAX - 1, Ok(usize::MAX)), Claim::Claimed(usize::MAX));
}

#[test]
fn an_exchange_that_replaced_the_reserved_word_waits_for_it_to_go() {
    assert_eq!(claim_step(usize::MAX, Ok(usize::MAX)), Claim::Retry(usize::MAX));
    assert_eq!(claim_step(usize::MAX - 1, Ok(usize::MAX - 1)), Claim::Retry(usize::MAX - 1));
}

#[test]
fn an_exchange_that_failed_expects_the_word_it_saw() {
    assert_eq!(claim_step(usize::MAX, Err(7)), Claim::Retry(7));
    assert_eq!(claim_step(usize::MAX, Err(usize::MAX)), Claim::Retry(usize::MAX));
    assert_eq!(claim_step(3, Err(0)), Claim::Retry(0));
}

#[test]
fn the_end_of_a_cell_decodes_its_word() {
    assert_eq!(AtomicCell::new(Ticket(usize::MAX - 1)).into_inner(), Some(Ticket(usize::MAX - 1)));
    assert_eq!(AtomicCell::new(Ticket(0)).into_inner(), Some(Ticket(0)));
    assert_eq!(AtomicCell::new(Ticket(42)).into_inner(), Some(Ticket(42)));
}

#[test]
fn the_end_of_a_cell_refuses_a_reserved_word() {
    // A ticket for the reserved word breaks the contract: its cell looks like one that
    // was left in transfer.
    assert_eq!(AtomicCell::new(Ticket(usize::MAX)).into_inner(), None);
}
