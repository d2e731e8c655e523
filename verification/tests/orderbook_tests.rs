use orderbook::book::OrderBook;
use orderbook::delete::DeleteError;
use orderbook::event::{OrderEvent, Outcome, Side};
use orderbook::program::get_masm_code;
use orderbook::record::{compare, ranks_above, Color, Priority, Record};

fn rec(book: &OrderBook, a: usize) -> Record {
    book.read(a)
}

fn root(book: &OrderBook) -> usize {
    rec(book, 0).right
}

fn walk(book: &OrderBook, a: usize, out: &mut Vec<usize>) {
    if a == 0 {
        return;
    }
    let r = rec(book, a);
    walk(book, r.left, out);
    out.push(a);
    walk(book, r.right, out);
}

fn inorder(book: &OrderBook) -> Vec<usize> {
    let mut out = Vec::new();
    walk(book, root(book), &mut out);
    out
}

/// Black height of the subtree under `a`, or None where two paths differ.
fn black_height(book: &OrderBook, a: usize) -> Option<usize> {
    if a == 0 {
        return Some(0);
    }
    let r = rec(book, a);
    let l = black_height(book, r.left)?;
    let rr = black_height(book, r.right)?;
    if l != rr {
        return None;
    }
    Some(l + if r.color == Color::Black { 1 } else { 0 })
}

fn links_ok(book: &OrderBook) -> bool {
    let s = rec(book, 0);
    if s.color != Color::RootSentinel || s.parent != 0 || s.left != 0 {
        return false;
    }
    if root(book) != 0 && rec(book, root(book)).parent != 0 {
        return false;
    }
    for a in inorder(book) {
        let r = rec(book, a);
        if r.color == Color::RootSentinel {
            return false;
        }
        if r.left != 0 && rec(book, r.left).parent != a {
            return false;
        }
        if r.right != 0 && rec(book, r.right).parent != a {
            return false;
        }
    }
    true
}

fn no_red_red(book: &OrderBook) -> bool {
    for a in inorder(book) {
        let r = rec(book, a);
        if r.color == Color::Red {
            if r.left != 0 && rec(book, r.left).color == Color::Red {
                return false;
            }
            if r.right != 0 && rec(book, r.right).color == Color::Red {
                return false;
            }
        }
    }
    true
}

fn sorted(book: &OrderBook) -> bool {
    let o = inorder(book);
    for w in o.windows(2) {
        if ranks_above(&rec(book, w[0]), &rec(book, w[1])) {
            return false;
        }
    }
    true
}

fn search_tree(book: &OrderBook) -> bool {
    links_ok(book) && sorted(book)
}

fn red_black(book: &OrderBook) -> bool {
    search_tree(book)
        && no_red_red(book)
        && black_height(book, root(book)).is_some()
        && (root(book) == 0 || rec(book, root(book)).color == Color::Black)
}

fn orders(book: &OrderBook) -> Vec<(u64, u64, u64, u64)> {
    inorder(book)
        .into_iter()
        .map(|a| {
            let r = rec(book, a);
            (r.quantity, r.price, r.time, r.order_id)
        })
        .collect()
}

fn order(quantity: u64, price: u64, time: u64, order_id: u64) -> Record {
    Record {
        color: Color::Black,
        parent: 0,
        left: 0,
        right: 0,
        quantity,
        price,
        time,
        order_id,
        dirty: false,
    }
}

struct Lcg(u64);

impl Lcg {
    fn next(&mut self) -> u64 {
        self.0 = self.0.wrapping_mul(6364136223846793005).wrapping_add(1442695040888963407);
        self.0 >> 33
    }
}

#[test]
fn new_book_is_empty() {
    let book = OrderBook::new();
    assert_eq!(book.len(), 1);
    assert_eq!(root(&book), 0);
    assert_eq!(rec(&book, 0).color, Color::RootSentinel);
    assert!(red_black(&book));
    assert_eq!(book.best(), 0);
}

#[test]
fn comparator_orders_by_price_then_time() {
    let a = order(1, 10, 5, 1);
    let b = order(1, 9, 7, 2);
    let c = order(1, 10, 6, 3);
    assert_eq!(compare(&a, &b), Priority::Greater);
    assert_eq!(compare(&b, &a), Priority::Less);
    assert_eq!(compare(&c, &a), Priority::Greater);
    assert_eq!(compare(&a, &c), Priority::Less);
    assert_eq!(compare(&a, &a), Priority::Less);
    assert!(ranks_above(&a, &b));
    assert!(!ranks_above(&a, &c));
}

#[test]
fn read_is_total() {
    let book = OrderBook::new();
    let r = book.read(7);
    assert_eq!(r, order(0, 0, 0, 0));
    assert_eq!(book.read(0).color, Color::RootSentinel);
}

#[test]
fn allocate_hands_out_increasing_addresses() {
    let mut book = OrderBook::new();
    let a = book.allocate();
    let b = book.allocate();
    assert_eq!((a, b), (1, 2));
    assert_eq!(book.len(), 3);
    book.write(2, order(4, 5, 6, 7));
    assert_eq!(book.read(2).price, 5);
    let c = book.insert(1, 1, 1, 1);
    assert_eq!(c, 3);
}

#[test]
fn first_insert_becomes_black_root() {
    let mut book = OrderBook::new();
    let a = book.insert(5, 10, 1, 77);
    assert_eq!(a, 1);
    assert_eq!(root(&book), 1);
    let r = rec(&book, 1);
    assert_eq!(r.color, Color::Black);
    assert_eq!((r.parent, r.left, r.right), (0, 0, 0));
    assert_eq!((r.quantity, r.price, r.time, r.order_id), (5, 10, 1, 77));
    assert!(r.dirty);
}

#[test]
fn three_ascending_inserts_rotate_once() {
    let mut book = OrderBook::new();
    book.insert(1, 1, 1, 1);
    book.insert(1, 2, 2, 2);
    book.insert(1, 3, 3, 3);
    assert_eq!(root(&book), 2);
    let r = rec(&book, 2);
    assert_eq!((r.color, r.left, r.right, r.parent), (Color::Black, 1, 3, 0));
    assert_eq!(rec(&book, 1).color, Color::Red);
    assert_eq!(rec(&book, 3).color, Color::Red);
    assert_eq!((rec(&book, 1).parent, rec(&book, 3).parent), (2, 2));
}

#[test]
fn inner_grandchild_rotates_twice() {
    let mut book = OrderBook::new();
    book.insert(1, 10, 1, 1);
    book.insert(1, 30, 2, 2);
    book.insert(1, 20, 3, 3);
    assert_eq!(root(&book), 3);
    assert_eq!((rec(&book, 3).left, rec(&book, 3).right), (1, 2));
    assert_eq!(rec(&book, 3).color, Color::Black);
    assert_eq!(rec(&book, 1).color, Color::Red);
    assert_eq!(rec(&book, 2).color, Color::Red);
    assert!(red_black(&book));
}

#[test]
fn red_uncle_recolors() {
    let mut book = OrderBook::new();
    book.insert(1, 20, 1, 1);
    book.insert(1, 10, 2, 2);
    book.insert(1, 30, 3, 3);
    book.insert(1, 5, 4, 4);
    assert_eq!(root(&book), 1);
    assert_eq!(rec(&book, 1).color, Color::Black);
    assert_eq!(rec(&book, 2).color, Color::Black);
    assert_eq!(rec(&book, 3).color, Color::Black);
    assert_eq!(rec(&book, 4).color, Color::Red);
    assert_eq!(rec(&book, 2).left, 4);
}

#[test]
fn equal_keys_go_right() {
    let mut book = OrderBook::new();
    book.insert(1, 10, 1, 1);
    book.insert(2, 10, 1, 2);
    book.insert(3, 10, 1, 3);
    assert_eq!(inorder(&book), vec![1, 2, 3]);
    assert!(red_black(&book));
}

#[test]
fn inserts_keep_the_invariants() {
    let mut rng = Lcg(42);
    let mut book = OrderBook::new();
    for i in 0..300u64 {
        let price = rng.next() % 50;
        let a = book.insert(1 + rng.next() % 9, price, i, i);
        assert_eq!(a as u64, i + 1);
        assert!(red_black(&book), "after insert {}", i);
        assert_eq!(inorder(&book).len() as u64, i + 1);
    }
}

#[test]
fn ascending_and_descending_inserts_keep_the_invariants() {
    let mut up = OrderBook::new();
    let mut down = OrderBook::new();
    for i in 0..200u64 {
        up.insert(1, i, i, i);
        down.insert(1, 1000 - i, i, i);
        assert!(red_black(&up));
        assert!(red_black(&down));
    }
    assert_eq!(up.best(), 200);
    assert_eq!(down.best(), 1);
}

#[test]
fn deleting_the_sole_record_empties_the_tree() {
    let mut book = OrderBook::new();
    let a = book.insert(5, 10, 1, 1);
    assert_eq!(book.delete(a), Ok(()));
    assert_eq!(root(&book), 0);
    assert_eq!(rec(&book, 0).left, 0);
    let r = rec(&book, a);
    assert_eq!((r.parent, r.left, r.right), (0, 0, 0));
    assert_eq!((r.quantity, r.price, r.time, r.order_id), (0, 0, 0, 0));
    assert_eq!(r.color, Color::Black);
    assert!(red_black(&book));
    assert_eq!(book.len(), 2);
    let b = book.insert(1, 1, 1, 1);
    assert_eq!(b, 2);
    assert_eq!(root(&book), 2);
}

#[test]
fn delete_refuses_what_is_not_in_the_tree() {
    let mut book = OrderBook::new();
    let a = book.insert(5, 10, 1, 1);
    book.insert(5, 11, 2, 2);
    let before = book.snapshot();
    assert_eq!(book.delete(0), Err(DeleteError::NotFound));
    assert_eq!(book.delete(3), Err(DeleteError::NotFound));
    assert_eq!(book.delete(1000), Err(DeleteError::NotFound));
    assert_eq!(book.snapshot(), before);
    assert_eq!(book.delete(a), Ok(()));
    assert_eq!(book.delete(a), Err(DeleteError::NotFound));
}

#[test]
fn delete_red_leaf() {
    let mut book = OrderBook::new();
    book.insert(1, 20, 1, 1);
    book.insert(1, 10, 2, 2);
    book.insert(1, 30, 3, 3);
    assert_eq!(book.delete(2), Ok(()));
    assert_eq!(inorder(&book), vec![1, 3]);
    assert_eq!(rec(&book, 1).left, 0);
    assert!(red_black(&book));
}

#[test]
fn delete_record_with_one_child() {
    let mut book = OrderBook::new();
    book.insert(1, 20, 1, 1);
    book.insert(1, 10, 2, 2);
    book.insert(1, 30, 3, 3);
    book.insert(1, 5, 4, 4);
    assert_eq!(book.delete(2), Ok(()));
    assert_eq!(inorder(&book), vec![4, 1, 3]);
    assert_eq!(rec(&book, 4).color, Color::Black);
    assert_eq!(rec(&book, 4).parent, 1);
    assert_eq!(rec(&book, 1).left, 4);
    assert!(red_black(&book));
}

#[test]
fn delete_record_with_two_children_uses_the_successor() {
    let mut book = OrderBook::new();
    book.insert(1, 20, 1, 1);
    book.insert(1, 10, 2, 2);
    book.insert(1, 30, 3, 3);
    assert_eq!(book.delete(1), Ok(()));
    assert_eq!(root(&book), 3);
    assert_eq!(inorder(&book), vec![2, 3]);
    assert_eq!(rec(&book, 3).color, Color::Black);
    assert_eq!(rec(&book, 3).left, 2);
    assert_eq!(rec(&book, 2).parent, 3);
    assert!(red_black(&book));
}

#[test]
fn delete_black_leaf_with_red_far_nephew() {
    // 20(B) over 10(B) and 30(B), with 40(R) under 30: removing 10 rotates
    // the parent towards it.
    let mut book = OrderBook::new();
    book.insert(1, 20, 1, 1);
    book.insert(1, 10, 2, 2);
    book.insert(1, 30, 3, 3);
    book.insert(1, 40, 4, 4);
    assert_eq!(book.delete(2), Ok(()));
    assert_eq!(root(&book), 3);
    assert_eq!((rec(&book, 3).left, rec(&book, 3).right), (1, 4));
    assert_eq!(rec(&book, 3).color, Color::Black);
    assert_eq!(rec(&book, 1).color, Color::Black);
    assert_eq!(rec(&book, 4).color, Color::Black);
    assert!(red_black(&book));
}

#[test]
fn delete_black_leaf_with_red_near_nephew() {
    let mut book = OrderBook::new();
    book.insert(1, 20, 1, 1);
    book.insert(1, 10, 2, 2);
    book.insert(1, 30, 3, 3);
    book.insert(1, 25, 4, 4);
    assert_eq!(book.delete(2), Ok(()));
    assert_eq!(root(&book), 4);
    assert_eq!((rec(&book, 4).left, rec(&book, 4).right), (1, 3));
    assert_eq!(rec(&book, 4).color, Color::Black);
    assert_eq!(rec(&book, 1).color, Color::Black);
    assert_eq!(rec(&book, 3).color, Color::Black);
    assert!(red_black(&book));
}

#[test]
fn delete_black_leaf_under_red_parent_recolors() {
    // Prices 1..8 in turn give 4(B) over 2(R) and 6(R); 2 holds the black
    // leaves 1 and 3.
    let mut book = OrderBook::new();
    for i in 1..=8u64 {
        book.insert(1, i, i, i);
    }
    assert_eq!(rec(&book, 2).color, Color::Red);
    assert_eq!(rec(&book, 1).color, Color::Black);
    assert_eq!(book.delete(1), Ok(()));
    assert_eq!(rec(&book, 2).color, Color::Black);
    assert_eq!(rec(&book, 3).color, Color::Red);
    assert!(red_black(&book));
}

#[test]
fn delete_black_leaf_with_red_sibling() {
    // 2(B) over 1(B) and 4(R); 4 holds the black leaves 3 and 5... built by
    // inserting 1..5 and 6, then removing 6.
    let mut book = OrderBook::new();
    for i in 1..=6u64 {
        book.insert(1, i, i, i);
    }
    assert_eq!(book.delete(6), Ok(()));
    assert_eq!(rec(&book, 4).color, Color::Red);
    assert_eq!(rec(&book, 1).color, Color::Black);
    assert_eq!(book.delete(1), Ok(()));
    assert_eq!(inorder(&book), vec![2, 3, 4, 5]);
    assert_eq!(root(&book), 4);
    assert!(red_black(&book));
}

#[test]
fn delete_black_leaf_under_black_root_recolors_the_sibling() {
    let mut book = OrderBook::new();
    book.insert(1, 20, 1, 1);
    book.insert(1, 10, 2, 2);
    book.insert(1, 30, 3, 3);
    book.insert(1, 40, 4, 4);
    assert_eq!(book.delete(4), Ok(()));
    assert_eq!(book.delete(2), Ok(()));
    assert_eq!(root(&book), 1);
    assert_eq!(rec(&book, 1).color, Color::Black);
    assert_eq!(rec(&book, 3).color, Color::Red);
    assert!(red_black(&book));
}

#[test]
fn delete_black_leaf_under_black_inner_parent_stops_at_the_parent() {
    // Prices 1..10 in turn give 4(B) over 2(B) and 6(B); 2 holds the black
    // leaves 1 and 3. Removing 1 turns 3 red and goes no further up, so the
    // paths through 2 pass one black record fewer than the others.
    let mut book = OrderBook::new();
    for i in 1..=10u64 {
        book.insert(1, i, i, i);
    }
    assert!(red_black(&book));
    assert_eq!(root(&book), 4);
    assert_eq!(rec(&book, 2).color, Color::Black);
    assert_eq!(rec(&book, 2).parent, 4);
    assert_eq!(rec(&book, 1).color, Color::Black);
    assert_eq!(rec(&book, 3).color, Color::Black);
    assert_eq!(book.delete(1), Ok(()));
    assert_eq!(rec(&book, 2).color, Color::Black);
    assert_eq!(rec(&book, 3).color, Color::Red);
    assert_eq!(inorder(&book), vec![2, 3, 4, 5, 6, 7, 8, 9, 10]);
    assert!(search_tree(&book));
    assert!(no_red_red(&book));
    assert_eq!(black_height(&book, root(&book)), None);
}

#[test]
fn delete_reports_a_missing_sibling() {
    // A black root with one black leaf: no red-black tree, but a search
    // tree with consistent links.
    let root_rec = Record { left: 2, ..order(1, 20, 1, 1) };
    let leaf = Record { parent: 1, ..order(1, 10, 2, 2) };
    let sentinel = Record { color: Color::RootSentinel, right: 1, ..order(0, 0, 0, 0) };
    let mut book = OrderBook::load(&vec![(0, sentinel), (1, root_rec), (2, leaf)]);
    assert!(search_tree(&book));
    let before = book.snapshot();
    assert_eq!(book.delete(2), Err(DeleteError::MissingSibling));
    assert_eq!(book.snapshot(), before);
    // The same on the other side, met by a matching pass at the best bid.
    let root_rec = Record { right: 2, ..order(1, 10, 1, 1) };
    let leaf = Record { parent: 1, ..order(1, 20, 2, 2) };
    let mut book = OrderBook::load(&vec![(0, sentinel), (1, root_rec), (2, leaf)]);
    let before = book.snapshot();
    assert_eq!(book.match_against_book(5, 1), Err(DeleteError::MissingSibling));
    assert_eq!(book.snapshot(), before);
}

#[test]
fn deletes_after_inserts_keep_the_search_tree() {
    let mut rng = Lcg(7);
    for n in 1..40usize {
        for victim in 1..=n {
            let mut book = OrderBook::new();
            for i in 0..n as u64 {
                book.insert(1, rng.next() % 20, i, i);
            }
            let mut expect = orders(&book);
            let r = rec(&book, victim);
            let at = inorder(&book).iter().position(|&a| a == victim).unwrap();
            assert_eq!(expect[at], (r.quantity, r.price, r.time, r.order_id));
            expect.remove(at);
            assert_eq!(book.delete(victim), Ok(()));
            assert!(search_tree(&book));
            assert!(no_red_red(&book));
            assert_eq!(orders(&book), expect);
            assert_eq!(rec(&book, victim), Record { dirty: true, ..order(0, 0, 0, 0) });
        }
    }
}

#[test]
fn match_crosses_best_price_first() {
    let mut book = OrderBook::new();
    book.insert(5, 10, 1, 1);
    book.insert(3, 12, 2, 2);
    assert_eq!(book.match_against_book(4, 9), Ok((4, 0)));
    assert_eq!(orders(&book), vec![(4, 10, 1, 1)]);
    assert_eq!(root(&book), 1);
    assert!(red_black(&book));
}

#[test]
fn match_above_the_best_bid_crosses_nothing() {
    let mut book = OrderBook::new();
    book.insert(5, 10, 1, 1);
    book.insert(3, 12, 2, 2);
    book.drain_changes();
    let before = book.snapshot();
    assert_eq!(book.match_against_book(4, 13), Ok((0, 4)));
    assert_eq!(book.snapshot(), before);
    assert!(book.drain_changes().is_empty());
}

#[test]
fn match_crosses_at_equal_price() {
    let mut book = OrderBook::new();
    book.insert(5, 10, 1, 1);
    assert_eq!(book.match_against_book(2, 10), Ok((2, 0)));
    assert_eq!(orders(&book), vec![(3, 10, 1, 1)]);
}

#[test]
fn match_on_empty_book_fills_nothing() {
    let mut book = OrderBook::new();
    assert_eq!(book.match_against_book(9, 1), Ok((0, 9)));
    assert_eq!(book.len(), 1);
}

#[test]
fn match_consumes_the_whole_book_and_drops_the_rest() {
    let mut book = OrderBook::new();
    book.insert(5, 10, 1, 1);
    book.insert(3, 12, 2, 2);
    book.insert(2, 11, 3, 3);
    assert_eq!(book.match_against_book(100, 1), Ok((10, 90)));
    assert_eq!(root(&book), 0);
    assert_eq!(book.len(), 4);
    assert!(orders(&book).is_empty());
}

#[test]
fn match_takes_the_later_of_two_orders_at_one_price() {
    let mut book = OrderBook::new();
    book.insert(1, 10, 1, 1);
    book.insert(1, 10, 2, 2);
    assert_eq!(book.match_against_book(1, 10), Ok((1, 0)));
    assert_eq!(orders(&book), vec![(1, 10, 1, 1)]);
}

#[test]
fn match_with_exact_quantity_removes_the_maker() {
    let mut book = OrderBook::new();
    book.insert(5, 10, 1, 1);
    book.insert(3, 12, 2, 2);
    assert_eq!(book.match_against_book(3, 12), Ok((3, 0)));
    assert_eq!(orders(&book), vec![(5, 10, 1, 1)]);
}

#[test]
fn match_conserves_quantity() {
    let mut rng = Lcg(99);
    for round in 0..60u64 {
        let mut book = OrderBook::new();
        let n = 1 + rng.next() % 12;
        for i in 0..n {
            book.insert(1 + rng.next() % 9, 90 + rng.next() % 20, i, i);
        }
        let before: u64 = orders(&book).iter().map(|o| o.0).sum();
        let list = orders(&book);
        let quantity = rng.next() % 40;
        let price = 90 + rng.next() % 20;
        match book.match_against_book(quantity, price) {
            Ok((filled, remaining)) => {
                assert_eq!(filled + remaining, quantity, "round {}", round);
                let after: u64 = orders(&book).iter().map(|o| o.0).sum();
                assert_eq!(before - after, filled);
                let kept = orders(&book);
                assert!(kept.len() <= list.len());
                for (i, o) in kept.iter().enumerate() {
                    assert_eq!((o.1, o.2, o.3), (list[i].1, list[i].2, list[i].3));
                    if i + 1 < kept.len() {
                        assert_eq!(o.0, list[i].0);
                    }
                }
                for o in &list[kept.len()..] {
                    assert!(o.1 >= price);
                }
                assert!(search_tree(&book));
            }
            Err(e) => assert_eq!(e, DeleteError::MissingSibling),
        }
    }
}

#[test]
fn drain_lists_flagged_records_in_address_order() {
    let mut book = OrderBook::new();
    book.insert(1, 20, 1, 1);
    book.insert(1, 10, 2, 2);
    book.insert(1, 30, 3, 3);
    let log = book.drain_changes();
    let addrs: Vec<usize> = log.iter().map(|e| e.0).collect();
    assert_eq!(addrs, vec![0, 1, 2, 3]);
    for (a, r) in &log {
        assert!(!r.dirty);
        assert_eq!(*r, book.read(*a));
    }
    assert!(book.drain_changes().is_empty());
    book.insert(1, 5, 4, 4);
    let log = book.drain_changes();
    let addrs: Vec<usize> = log.iter().map(|e| e.0).collect();
    assert_eq!(addrs, vec![1, 2, 3, 4]);
    assert!(red_black(&book));
}

#[test]
fn partial_fill_flags_the_maker() {
    let mut book = OrderBook::new();
    book.insert(5, 10, 1, 1);
    book.drain_changes();
    assert_eq!(book.match_against_book(2, 10), Ok((2, 0)));
    let log = book.drain_changes();
    assert_eq!(log.len(), 1);
    assert_eq!(log[0].0, 1);
    assert_eq!(log[0].1.quantity, 3);
}

#[test]
fn load_builds_the_listed_store() {
    let book = OrderBook::load(&vec![(3, order(1, 2, 3, 4)), (1, order(9, 9, 9, 9)), (3, order(5, 6, 7, 8))]);
    assert_eq!(book.len(), 4);
    assert_eq!(book.read(0).color, Color::RootSentinel);
    assert_eq!(book.read(1), order(9, 9, 9, 9));
    assert_eq!(book.read(2), order(0, 0, 0, 0));
    assert_eq!(book.read(3), order(5, 6, 7, 8));
    let empty = OrderBook::load(&vec![]);
    assert_eq!(empty.snapshot(), OrderBook::new().snapshot());
}

#[test]
fn snapshot_and_load_round_trip() {
    let mut rng = Lcg(5);
    let mut book = OrderBook::new();
    for i in 0..50u64 {
        book.insert(1 + rng.next() % 5, rng.next() % 30, i, i);
    }
    book.delete(7).unwrap();
    book.drain_changes();
    let mut copy = OrderBook::load(&book.snapshot());
    assert_eq!(copy.snapshot(), book.snapshot());
    let a = book.insert(3, 17, 100, 100);
    let b = copy.insert(3, 17, 100, 100);
    assert_eq!(a, b);
    assert_eq!(book.match_against_book(20, 25), copy.match_against_book(20, 25));
    assert_eq!(copy.snapshot(), book.snapshot());
    assert_eq!(copy.drain_changes(), book.drain_changes());
}

#[test]
fn change_log_rebuilds_the_book() {
    let mut rng = Lcg(11);
    let mut book = OrderBook::new();
    for i in 0..30u64 {
        book.insert(1 + rng.next() % 5, rng.next() % 30, i, i);
    }
    book.drain_changes();
    let mut entries = book.snapshot();
    book.insert(2, 13, 50, 50);
    book.match_against_book(6, 20).unwrap();
    let log = book.drain_changes();
    entries.extend(log);
    let rebuilt = OrderBook::load(&entries);
    assert_eq!(rebuilt.snapshot(), book.snapshot());
}

#[test]
fn program_text_is_whole() {
    let code = get_masm_code();
    assert_eq!(code.len(), 93052);
    assert!(code.starts_with("#\n# Library for Red-Black Binary Search Tree"));
    assert!(code.contains("proc.MatchOrder"));
    assert!(code.contains("exec.PrintChangeLog"));
    assert!(code.trim_end().ends_with("end"));
    assert!(!code.contains("{{"));
}

#[test]
fn record_constructors() {
    assert_eq!(Record::empty(false), order(0, 0, 0, 0));
    assert_eq!(Record::empty(true), Record { dirty: true, ..order(0, 0, 0, 0) });
    assert_eq!(Record::sentinel(), Record { color: Color::RootSentinel, ..order(0, 0, 0, 0) });
}

#[test]
fn best_is_the_rightmost_record() {
    let mut book = OrderBook::new();
    book.insert(1, 10, 1, 1);
    book.insert(1, 30, 2, 2);
    book.insert(1, 20, 3, 3);
    book.insert(1, 30, 4, 4);
    assert_eq!(book.best(), 4);
    assert_eq!(book.delete(4), Ok(()));
    assert_eq!(book.best(), 2);
}

#[test]
fn submit_rests_makers_and_matches_takers() {
    let mut book = OrderBook::new();
    let maker = |order_id, time, price, quantity| OrderEvent {
        order_id,
        time,
        price,
        quantity,
        side: Side::Maker,
    };
    assert_eq!(book.submit(maker(1, 1, 10, 5)), Ok(Outcome::Rested { address: 1 }));
    assert_eq!(book.submit(maker(2, 2, 12, 3)), Ok(Outcome::Rested { address: 2 }));
    let taker = OrderEvent { order_id: 3, time: 3, price: 9, quantity: 4, side: Side::Taker };
    assert_eq!(book.submit(taker), Ok(Outcome::Matched { filled: 4, remaining: 0 }));
    assert_eq!(orders(&book), vec![(4, 10, 1, 1)]);
    assert_eq!(book.len(), 3);
    let high = OrderEvent { order_id: 4, time: 4, price: 11, quantity: 4, side: Side::Taker };
    assert_eq!(book.submit(high), Ok(Outcome::Matched { filled: 0, remaining: 4 }));
}

#[test]
fn match_removes_a_zero_quantity_maker_that_crosses() {
    let mut book = OrderBook::new();
    book.insert(0, 10, 1, 1);
    assert_eq!(book.match_against_book(0, 10), Ok((0, 0)));
    assert_eq!(root(&book), 0);
}

#[test]
fn match_with_nothing_to_fill_flags_the_best_maker() {
    let mut book = OrderBook::new();
    book.insert(5, 10, 1, 1);
    book.drain_changes();
    assert_eq!(book.match_against_book(0, 10), Ok((0, 0)));
    assert_eq!(orders(&book), vec![(5, 10, 1, 1)]);
    let log = book.drain_changes();
    assert_eq!(log.len(), 1);
    assert_eq!(log[0].0, 1);
}

#[test]
fn rotation_flags_only_what_it_writes() {
    let mut book = OrderBook::new();
    for i in 1..=6u64 {
        book.insert(1, i, i, i);
    }
    book.drain_changes();
    // 7 hangs under 6, the red child of the black 5: a rotation around 5
    // lifts 6 under 4. The root 2 is written black once more; 1 and 3 are
    // not touched.
    book.insert(1, 7, 7, 7);
    let addrs: Vec<usize> = book.drain_changes().iter().map(|e| e.0).collect();
    assert_eq!(addrs, vec![2, 4, 5, 6, 7]);
    assert!(red_black(&book));
}

/// The record whose place is given up when `addr` goes.
fn removal_site(book: &OrderBook, addr: usize) -> usize {
    let r = rec(book, addr);
    if r.left != 0 && r.right != 0 {
        let mut cur = r.right;
        while rec(book, cur).left != 0 {
            cur = rec(book, cur).left;
        }
        cur
    } else {
        addr
    }
}

/// Whether removing `addr` takes out a black leaf whose parent and sibling
/// are black, whose sibling has no red child and whose parent is not the
/// root.
fn loses_balance(book: &OrderBook, addr: usize) -> bool {
    let v = removal_site(book, addr);
    let r = rec(book, v);
    if r.color != Color::Black || r.left != 0 || r.right != 0 || r.parent == 0 {
        return false;
    }
    let p = rec(book, r.parent);
    let sib = if p.left == v { p.right } else { p.left };
    if sib == 0 {
        return false;
    }
    let s = rec(book, sib);
    let red = |a: usize| a != 0 && rec(book, a).color == Color::Red;
    s.color != Color::Red && !red(s.left) && !red(s.right) && p.color != Color::Red && p.parent != 0
}

#[test]
fn delete_keeps_red_black_unless_it_stops_short() {
    let mut rng = Lcg(2024);
    let mut kept = 0;
    let mut lost = 0;
    for n in 1..48usize {
        for victim in 1..=n {
            let mut book = OrderBook::new();
            for i in 0..n as u64 {
                book.insert(1, rng.next() % 64, i, i);
            }
            assert!(red_black(&book));
            let short = loses_balance(&book, victim);
            assert_eq!(book.delete(victim), Ok(()));
            assert!(search_tree(&book));
            assert!(no_red_red(&book));
            assert_eq!(red_black(&book), !short, "n {} victim {}", n, victim);
            assert_eq!(book.validate_red_black(), !short);
            assert!(book.validate());
            if short {
                lost += 1;
            } else {
                kept += 1;
            }
        }
    }
    assert!(kept > 0 && lost > 0);
}

#[test]
fn rotations_keep_the_listing() {
    let mut book = OrderBook::new();
    for i in 1..=7u64 {
        book.insert(1, i, i, i);
    }
    let before = inorder(&book);
    let top = root(&book);
    let right = rec(&book, top).right;
    let inner = rec(&book, right).left;
    book.drain_changes();
    book.rotate_left(top);
    assert_eq!(root(&book), right);
    assert_eq!(rec(&book, right).left, top);
    assert_eq!(rec(&book, right).parent, 0);
    assert_eq!(rec(&book, top).parent, right);
    assert_eq!(rec(&book, top).right, inner);
    assert_eq!(rec(&book, inner).parent, top);
    assert_eq!(inorder(&book), before);
    assert!(search_tree(&book));
    let addrs: Vec<usize> = book.drain_changes().iter().map(|e| e.0).collect();
    let mut expect = vec![0, top, right, inner];
    expect.sort();
    assert_eq!(addrs, expect);
    book.rotate_right(right);
    assert_eq!(root(&book), top);
    assert_eq!(rec(&book, top).right, right);
    assert_eq!(rec(&book, right).left, inner);
    assert_eq!(inorder(&book), before);
    assert!(red_black(&book));
}

#[test]
fn set_child_writes_the_side_that_held_the_old_child() {
    let mut book = OrderBook::new();
    book.insert(1, 20, 1, 1);
    book.insert(1, 10, 2, 2);
    book.insert(1, 30, 3, 3);
    book.set_child(1, 2, 9);
    assert_eq!((book.read(1).left, book.read(1).right), (9, 3));
    book.set_child(1, 3, 8);
    assert_eq!((book.read(1).left, book.read(1).right), (9, 8));
    book.set_child(0, 1, 5);
    assert_eq!((book.read(0).left, book.read(0).right), (0, 5));
    assert!(book.read(1).dirty && book.read(0).dirty);
}

#[test]
fn same_inputs_give_the_same_tree_and_log() {
    let mut rng = Lcg(77);
    let mut a = OrderBook::new();
    let mut b = OrderBook::new();
    for i in 0..120u64 {
        let (q, p) = (1 + rng.next() % 9, rng.next() % 40);
        match rng.next() % 4 {
            0 => {
                assert_eq!(a.match_against_book(q, p), b.match_against_book(q, p));
            }
            1 => {
                let victim = (rng.next() as usize) % a.len();
                assert_eq!(a.delete(victim), b.delete(victim));
            }
            _ => {
                assert_eq!(a.insert(q, p, i, i), b.insert(q, p, i, i));
            }
        }
        assert_eq!(a.snapshot(), b.snapshot());
        if i % 7 == 0 {
            assert_eq!(a.drain_changes(), b.drain_changes());
            b = OrderBook::load(&a.snapshot());
        }
        assert!(search_tree(&a));
    }
}

#[test]
fn validate_accepts_what_the_operations_build() {
    let mut rng = Lcg(31);
    let mut book = OrderBook::new();
    assert!(book.validate());
    for i in 0..200u64 {
        match rng.next() % 5 {
            0 => {
                let _ = book.match_against_book(1 + rng.next() % 9, rng.next() % 40);
            }
            1 => {
                let victim = (rng.next() as usize) % book.len();
                let _ = book.delete(victim);
            }
            _ => {
                book.insert(1 + rng.next() % 9, rng.next() % 40, i, i);
            }
        }
        assert!(book.validate(), "step {}", i);
        assert_eq!(book.validate(), search_tree(&book));
    }
    assert!(OrderBook::load(&book.snapshot()).validate());
    assert!(OrderBook::load(&vec![]).validate());
}

#[test]
fn validate_refuses_broken_stores() {
    let mut good = OrderBook::new();
    for i in 1..=7u64 {
        good.insert(1, i, i, i);
    }
    assert!(good.validate());
    let broken = |change: &dyn Fn(&mut OrderBook)| {
        let mut book = OrderBook::load(&good.snapshot());
        change(&mut book);
        book.validate()
    };
    // a child that names another parent
    assert!(!broken(&|b| b.write(1, Record { parent: 3, ..b.read(1) })));
    // a link that closes a cycle
    assert!(!broken(&|b| b.write(7, Record { right: 2, ..b.read(7) })));
    // a link that leads outside the store
    assert!(!broken(&|b| b.write(7, Record { right: 99, ..b.read(7) })));
    // a record that ranks above its right neighbour
    assert!(!broken(&|b| b.write(1, Record { price: 50, ..b.read(1) })));
    // a record of the tree with the sentinel's colour
    assert!(!broken(&|b| b.write(3, Record { color: Color::RootSentinel, ..b.read(3) })));
    // a slot outside the tree that holds something
    assert!(!broken(&|b| {
        let a = b.allocate();
        b.write(a, order(1, 1, 1, 1));
    }));
    // a record shared by two parents
    assert!(!broken(&|b| b.write(1, Record { right: 3, ..b.read(1) })));
    // a sentinel that anchors nothing while records are linked
    assert!(!broken(&|b| b.write(0, Record { right: 0, ..b.read(0) })));
    // a sentinel with a left link
    assert!(!broken(&|b| b.write(0, Record { left: 1, ..b.read(0) })));
    // a change of quantity or of a flag breaks nothing
    assert!(broken(&|b| b.write(1, Record { quantity: 50, dirty: true, ..b.read(1) })));
}

#[test]
fn validate_red_black_agrees_with_the_invariants() {
    let mut rng = Lcg(313);
    let mut book = OrderBook::new();
    assert!(book.validate_red_black());
    for i in 0..300u64 {
        match rng.next() % 5 {
            0 => {
                let _ = book.match_against_book(1 + rng.next() % 9, rng.next() % 40);
            }
            1 => {
                let victim = (rng.next() as usize) % book.len();
                let _ = book.delete(victim);
            }
            _ => {
                book.insert(1 + rng.next() % 9, rng.next() % 40, i, i);
            }
        }
        assert_eq!(book.validate_red_black(), red_black(&book), "step {}", i);
    }
    let mut grown = OrderBook::new();
    for i in 1..=7u64 {
        grown.insert(1, i, i, i);
    }
    assert!(grown.validate_red_black());
    // a red root
    let mut red_root = OrderBook::load(&grown.snapshot());
    let top = root(&red_root);
    red_root.write(top, Record { color: Color::Red, ..red_root.read(top) });
    assert!(red_root.validate());
    assert!(!red_root.validate_red_black());
    // a red record under a red record
    let mut red_red = OrderBook::load(&grown.snapshot());
    let leaf = red_red.best();
    let parent = red_red.read(leaf).parent;
    red_red.write(leaf, Record { color: Color::Red, ..red_red.read(leaf) });
    red_red.write(parent, Record { color: Color::Red, ..red_red.read(parent) });
    assert!(red_red.validate());
    assert!(!red_red.validate_red_black());
    // one path with a black record more
    let mut uneven = OrderBook::load(&grown.snapshot());
    uneven.write(1, Record { color: Color::Black, ..uneven.read(1) });
    let was = grown.read(1).color;
    assert_eq!(uneven.validate_red_black(), was == Color::Black);
    // no search tree at all
    let mut broken = OrderBook::load(&grown.snapshot());
    broken.write(1, Record { parent: 3, ..broken.read(1) });
    assert!(!broken.validate_red_black());
}
