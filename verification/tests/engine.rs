use concurrency::product::{answer, assemble, request};
use concurrency::{
    collect, dispatch, multiply, queue_took, serve, worker_of, Dispatch, Matrix, MatrixError, Msg,
    MsgInput, MsgOutput, Served, Vector, WorkerPool, NUM_THREADS,
};
use std::sync::mpsc;

fn pool_of(size: usize) -> (WorkerPool<i32>, Vec<mpsc::Receiver<Msg<i32>>>) {
    let mut queues = Vec::new();
    let mut inboxes = Vec::new();
    for _ in 0..size {
        let (queue, inbox) = mpsc::channel();
        queues.push(queue);
        inboxes.push(inbox);
    }
    (WorkerPool::new(queues), inboxes)
}

#[test]
fn worker_of_goes_round_by_index() {
    assert_eq!(NUM_THREADS, 4);
    assert_eq!(worker_of(0, 4), 0);
    assert_eq!(worker_of(3, 4), 3);
    assert_eq!(worker_of(4, 4), 0);
    assert_eq!(worker_of(13, 4), 1);
    assert_eq!(worker_of(13, 1), 0);
    assert_eq!(worker_of(usize::MAX, 4), 3);
}

#[test]
fn request_carries_row_column_and_flat_index() {
    let a = Matrix::new(vec![1, 2, 3, 4, 5, 6], 2, 3);
    let b = Matrix::new(vec![7, 8, 9, 10, 11, 12], 3, 2);
    let input = request(&a, &b, 1, 0);
    assert_eq!(input.idx, 2);
    assert_eq!(*input.row, vec![4, 5, 6]);
    assert_eq!(*input.col, vec![7, 9, 11]);
    let input = request(&a, &b, 0, 1);
    assert_eq!(input.idx, 1);
    assert_eq!(*input.row, vec![1, 2, 3]);
    assert_eq!(*input.col, vec![8, 10, 12]);
}

#[test]
fn answer_keeps_the_index() {
    let input = MsgInput::new(9, Vector::new(vec![1, 2]), Vector::new(vec![3, 4]));
    let output = answer(input).unwrap();
    assert_eq!(output.idx, 9);
    assert_eq!(output.value, 11);
}

#[test]
fn answer_rejects_operands_of_different_lengths() {
    let input = MsgInput::new(0, Vector::new(vec![1, 2]), Vector::new(vec![3]));
    assert!(matches!(answer(input), Err(MatrixError::ShapeMismatch)));
}

#[test]
fn assemble_places_by_index_in_any_order() {
    let in_order = vec![
        MsgOutput { idx: 0, value: 10 },
        MsgOutput { idx: 1, value: 11 },
        MsgOutput { idx: 2, value: 12 },
        MsgOutput { idx: 3, value: 13 },
    ];
    let shuffled = vec![
        MsgOutput { idx: 2, value: 12 },
        MsgOutput { idx: 0, value: 10 },
        MsgOutput { idx: 3, value: 13 },
        MsgOutput { idx: 1, value: 11 },
    ];
    assert_eq!(assemble(in_order, 2, 2).unwrap().to_string(), "{10 11, 12 13}");
    assert_eq!(assemble(shuffled, 2, 2).unwrap().to_string(), "{10 11, 12 13}");
}

#[test]
fn assemble_fills_gaps_with_default_and_keeps_the_later_answer() {
    let outputs = vec![
        MsgOutput { idx: 3, value: 1 },
        MsgOutput { idx: 1, value: 2 },
        MsgOutput { idx: 3, value: 5 },
    ];
    assert_eq!(assemble(outputs, 2, 2).unwrap().to_string(), "{0 2, 0 5}");
    let none: Vec<MsgOutput<i32>> = Vec::new();
    assert_eq!(assemble(none, 1, 3).unwrap().to_string(), "{0 0 0}");
}

#[test]
fn assemble_rejects_an_index_outside_the_matrix() {
    let outputs = vec![MsgOutput { idx: 0, value: 1 }, MsgOutput { idx: 4, value: 2 }];
    assert!(matches!(
        assemble(outputs, 2, 2),
        Err(MatrixError::WorkerCommunicationFailure)
    ));
    let outputs = vec![MsgOutput { idx: 0, value: 1 }];
    assert!(matches!(
        assemble(outputs, 0, 5),
        Err(MatrixError::WorkerCommunicationFailure)
    ));
}

#[test]
fn dispatch_makes_one_message_for_each_cell() {
    let a = Matrix::new(vec![1, 2, 3, 4, 5, 6], 2, 3);
    let b = Matrix::new(vec![1, 2, 3, 4, 5, 6], 3, 2);
    let Dispatch { requests, replies, .. } = dispatch(&a, &b).unwrap();
    assert_eq!(requests.len(), 4);
    assert_eq!(replies.len(), 4);
    for (k, msg) in requests.iter().enumerate() {
        assert_eq!(msg.input.idx, k);
        assert_eq!(*msg.input.row, *a.row(k / 2));
        assert_eq!(*msg.input.col, *b.column(k % 2));
    }
}

#[test]
fn dispatch_rejects_unfit_shapes() {
    let a = Matrix::new(vec![1, 2, 3, 4, 5, 6], 2, 3);
    let b = Matrix::new(vec![1, 2, 3, 4], 2, 2);
    assert!(matches!(dispatch(&a, &b), Err(MatrixError::ShapeMismatch)));
}

#[test]
fn served_out_of_order_the_product_is_the_same() {
    let a = Matrix::new(vec![1, 2, 3, 4, 5, 6], 2, 3);
    let b = Matrix::new(vec![1, 2, 3, 4, 5, 6], 3, 2);
    let Dispatch { mut requests, replies, .. } = dispatch(&a, &b).unwrap();
    let mut queues: Vec<Vec<Msg<i32>>> = (0..NUM_THREADS).map(|_| Vec::new()).collect();
    while let Some(msg) = requests.pop() {
        queues[worker_of(msg.input.idx, NUM_THREADS)].push(msg);
    }
    for queue in queues.into_iter().rev() {
        for msg in queue {
            assert_eq!(serve(msg), Served::Delivered);
        }
    }
    let product = collect(replies, a.rows(), b.cols()).unwrap();
    assert_eq!(product.to_string(), "{22 28, 49 64}");
    assert_eq!(product.to_string(), multiply(&a, &b).unwrap().to_string());
}

#[test]
fn two_products_served_together_do_not_mix() {
    let a = Matrix::new(vec![1, 2, 3, 4], 2, 2);
    let b = Matrix::new(vec![5, 6, 7, 8], 2, 2);
    let c = Matrix::new(vec![1, 0, 0, 1, 2, 2], 3, 2);
    let first = dispatch(&a, &b).unwrap();
    let second = dispatch(&c, &a).unwrap();
    let mut shared: Vec<Msg<i32>> = Vec::new();
    let mut one = first.requests.into_iter();
    let mut two = second.requests.into_iter();
    loop {
        let x = one.next();
        let y = two.next();
        if x.is_none() && y.is_none() {
            break;
        }
        shared.extend(y);
        shared.extend(x);
    }
    while let Some(msg) = shared.pop() {
        assert_eq!(serve(msg), Served::Delivered);
    }
    let ab = collect(first.replies, 2, 2).unwrap();
    let ca = collect(second.replies, 3, 2).unwrap();
    assert_eq!(ab.to_string(), multiply(&a, &b).unwrap().to_string());
    assert_eq!(ab.to_string(), "{19 22, 43 50}");
    assert_eq!(ca.to_string(), multiply(&c, &a).unwrap().to_string());
    assert_eq!(ca.to_string(), "{1 2, 3 4, 8 12}");
}

#[test]
fn serve_reports_an_unclaimed_answer() {
    let (sender, receiver) = oneshot::channel();
    drop(receiver);
    let input = MsgInput::new(0, Vector::new(vec![1, 2]), Vector::new(vec![3, 4]));
    assert_eq!(serve(Msg::new(input, sender)), Served::Unclaimed);
}

#[test]
fn serve_rejects_a_malformed_request_and_closes_its_channel() {
    let (sender, receiver) = oneshot::channel::<MsgOutput<i32>>();
    let input = MsgInput::new(0, Vector::new(vec![1, 2]), Vector::new(vec![3]));
    assert_eq!(serve(Msg::new(input, sender)), Served::Rejected);
    assert!(receiver.recv().is_err());
}

#[test]
fn serve_sends_the_tagged_answer() {
    let (sender, receiver) = oneshot::channel();
    let input = MsgInput::new(5, Vector::new(vec![2, 3]), Vector::new(vec![4, 5]));
    assert_eq!(serve(Msg::new(input, sender)), Served::Delivered);
    let output = receiver.recv().unwrap();
    assert_eq!(output.idx, 5);
    assert_eq!(output.value, 23);
}

#[test]
fn collect_fails_when_a_reply_cannot_be_had() {
    let a = Matrix::new(vec![1, 2, 3, 4], 2, 2);
    let Dispatch { mut requests, replies, .. } = dispatch(&a, &a).unwrap();
    let lost = requests.pop().unwrap();
    for msg in requests {
        assert_eq!(serve(msg), Served::Delivered);
    }
    drop(lost);
    assert!(matches!(
        collect(replies, 2, 2),
        Err(MatrixError::WorkerCommunicationFailure)
    ));
}

#[test]
fn collect_fails_on_a_reply_for_another_matrix() {
    let (sender, receiver) = oneshot::channel();
    sender.send(MsgOutput { idx: 7, value: 1 }).unwrap();
    assert!(matches!(
        collect(vec![receiver], 1, 1),
        Err(MatrixError::WorkerCommunicationFailure)
    ));
}

#[test]
fn pool_hands_each_cell_to_the_worker_of_its_index() {
    let (pool, inboxes) = pool_of(NUM_THREADS);
    assert_eq!(pool.len(), 4);
    let a = Matrix::new(vec![1, 2, 3, 4, 5, 6], 3, 2);
    let b = Matrix::new(vec![1, 0, 2, 0, 1, 3], 2, 3);
    let Dispatch { requests, replies, .. } = dispatch(&a, &b).unwrap();
    for msg in requests {
        assert!(pool.submit(msg));
    }
    for (worker, inbox) in inboxes.iter().enumerate() {
        let got: Vec<usize> = inbox.try_iter().map(|msg| msg.input.idx).collect();
        let expected: Vec<usize> = (0..9).filter(|idx| idx % 4 == worker).collect();
        assert_eq!(got, expected);
    }
    drop(replies);
}

#[test]
fn pool_workers_serving_their_queues_give_the_product() {
    let (pool, inboxes) = pool_of(3);
    let a = Matrix::new(vec![1, 2, 3, 4, 5, 6], 3, 2);
    let b = Matrix::new(vec![1, 0, 2, 0, 1, 3], 2, 3);
    let Dispatch { requests, replies, .. } = dispatch(&a, &b).unwrap();
    for msg in requests {
        assert!(pool.submit(msg));
    }
    for inbox in inboxes.iter().rev() {
        for msg in inbox.try_iter() {
            assert_eq!(serve(msg), Served::Delivered);
        }
    }
    let product = collect(replies, 3, 3).unwrap();
    assert_eq!(product.to_string(), "{1 2 8, 3 4 18, 5 6 28}");
    assert_eq!(product.to_string(), multiply(&a, &b).unwrap().to_string());
}

#[test]
fn pool_reports_a_queue_that_is_closed() {
    let (pool, mut inboxes) = pool_of(2);
    drop(inboxes.pop());
    let (to_first, first) = oneshot::channel();
    let (to_second, second) = oneshot::channel();
    let open = MsgInput::new(4, Vector::new(vec![1]), Vector::new(vec![1]));
    let closed = MsgInput::new(5, Vector::new(vec![1]), Vector::new(vec![1]));
    assert!(pool.submit(Msg::new(open, to_first)));
    assert!(!pool.submit(Msg::new(closed, to_second)));
    assert!(second.recv().is_err());
    for msg in inboxes[0].try_iter() {
        assert_eq!(serve(msg), Served::Delivered);
    }
    assert_eq!(first.recv().unwrap().idx, 4);
}

#[test]
fn pool_multiply_fails_without_workers() {
    let (pool, inboxes) = pool_of(NUM_THREADS);
    drop(inboxes);
    let a = Matrix::new(vec![1, 2, 3, 4, 5, 6], 2, 3);
    let b = Matrix::new(vec![1, 2, 3, 4, 5, 6], 3, 2);
    assert!(matches!(
        pool.multiply(&a, &b),
        Err(MatrixError::WorkerCommunicationFailure)
    ));
}

#[test]
fn pool_multiply_rejects_unfit_shapes_before_any_message() {
    let (pool, inboxes) = pool_of(NUM_THREADS);
    let a = Matrix::new(vec![1, 2, 3, 4, 5, 6], 2, 3);
    let b = Matrix::new(vec![1, 2, 3, 4], 2, 2);
    assert!(matches!(pool.multiply(&a, &b), Err(MatrixError::ShapeMismatch)));
    for inbox in &inboxes {
        assert!(inbox.try_recv().is_err());
    }
}

#[test]
fn pool_multiply_of_nothing_needs_no_worker() {
    let (pool, inboxes) = pool_of(1);
    drop(inboxes);
    let a: Matrix<i32> = Matrix::new(Vec::new(), 0, 2);
    let b: Matrix<i32> = Matrix::new(vec![1, 2, 3, 4], 2, 2);
    assert_eq!(pool.multiply(&a, &b).unwrap().to_string(), "{}");
}

#[test]
fn dispatch_records_the_shape_of_the_product() {
    let a = Matrix::new(vec![1, 2, 3, 4, 5, 6], 3, 2);
    let b = Matrix::new(vec![1, 2, 3, 4, 5, 6, 7, 8], 2, 4);
    let work = dispatch(&a, &b).unwrap();
    assert_eq!((work.row, work.col), (3, 4));
    assert_eq!(work.requests.len(), 12);
}

#[test]
fn pool_complete_fails_without_workers() {
    let (pool, inboxes) = pool_of(2);
    drop(inboxes);
    let a = Matrix::new(vec![1, 2, 3, 4], 2, 2);
    let work = dispatch(&a, &a).unwrap();
    assert!(matches!(
        pool.complete(work),
        Err(MatrixError::WorkerCommunicationFailure)
    ));
}

#[test]
fn queue_took_goes_by_what_sending_returned() {
    assert!(queue_took::<i32>(Ok(())));
    assert!(!queue_took(Err(mpsc::SendError(7))));
}

#[test]
fn collect_of_no_replies_is_all_defaults() {
    let none: Vec<oneshot::Receiver<MsgOutput<i32>>> = Vec::new();
    assert_eq!(collect(none, 0, 3).unwrap().to_string(), "{}");
    let none: Vec<oneshot::Receiver<MsgOutput<i32>>> = Vec::new();
    assert_eq!(collect(none, 2, 2).unwrap().to_string(), "{0 0, 0 0}");
}

#[test]
fn pool_complete_of_no_work_succeeds() {
    let (pool, inboxes) = pool_of(2);
    drop(inboxes);
    let a: Matrix<i32> = Matrix::new(vec![1, 2], 2, 1);
    let b: Matrix<i32> = Matrix::new(Vec::new(), 1, 0);
    let work = dispatch(&a, &b).unwrap();
    assert_eq!(pool.complete(work).unwrap().to_string(), "{, }");
}

#[test]
fn queue_of_is_the_queue_of_the_cells_worker() {
    let (pool, inboxes) = pool_of(3);
    for idx in [0usize, 1, 2, 3, 7, 11] {
        let (sender, _receiver) = oneshot::channel();
        let input = MsgInput::new(idx, Vector::new(vec![1]), Vector::new(vec![1]));
        pool.queue_of(idx).send(Msg::new(input, sender)).unwrap();
        let got = inboxes[idx % 3].try_recv().unwrap();
        assert_eq!(got.input.idx, idx);
    }
    for inbox in &inboxes {
        assert!(inbox.try_recv().is_err());
    }
}

#[test]
fn dispatch_rejects_unfit_shapes_of_ill_formed_operands() {
    let a = Matrix::new(vec![1, 2, 3], 2, 3);
    let b = Matrix::new(vec![1], 2, 2);
    assert!(matches!(dispatch(&a, &b), Err(MatrixError::ShapeMismatch)));
    assert!(matches!(multiply(&a, &b), Err(MatrixError::ShapeMismatch)));
}
