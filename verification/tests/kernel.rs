use aos_realm::kernel::RealmKernel;
use aos_realm::process::{
    Descriptor, DescriptorBinding, DescriptorResource, ExecutableId, KernelError, ParkResult,
    PipeId, PipeReadResult, PipeWriteResult, ProcessId, ProcessSpec, ProcessState, Quota,
    RealmLimits, Signal, Termination, WaitResult,
};

fn image(byte: u8) -> ExecutableId {
    ExecutableId::new([byte; 32])
}

fn spec(byte: u8) -> ProcessSpec {
    ProcessSpec::new(image(byte), "/workspace")
}

fn running_root(kernel: &mut RealmKernel, byte: u8) -> ProcessId {
    let process = kernel.spawn_root(spec(byte)).expect("root spawns");
    kernel.admit_process(process).expect("root admits");
    assert_eq!(kernel.dispatch_next(), Some(process));
    process
}

fn pipe_id(kernel: &RealmKernel, process: ProcessId, descriptor: Descriptor) -> PipeId {
    match kernel.descriptor(process, descriptor).expect("descriptor") {
        DescriptorResource::PipeRead(pipe) | DescriptorResource::PipeWrite(pipe) => pipe,
    }
}

#[test]
fn lifecycle_is_explicit_fifo_and_identifiers_are_not_reused() {
    let mut kernel = RealmKernel::new(RealmLimits::default());
    let first = kernel.spawn_root(spec(1)).expect("first spawns");
    let second = kernel.spawn_root(spec(2)).expect("second spawns");
    kernel.admit_process(first).expect("first admits");
    kernel.admit_process(second).expect("second admits");

    assert_eq!(kernel.dispatch_next(), Some(first));
    assert_eq!(kernel.dispatch_next(), None);
    kernel.yield_now(first).expect("first yields");
    assert_eq!(kernel.dispatch_next(), Some(second));
    kernel.exit(second, 7).expect("second exits");
    assert_eq!(kernel.dispatch_next(), Some(first));
    kernel.exit(first, 0).expect("first exits");
    assert_eq!(kernel.reap_root(first), Ok(Termination::Exited(0)));
    assert_eq!(kernel.reap_root(second), Ok(Termination::Exited(7)));
    assert!(ProcessState::Exited(7).is_terminal());
    assert!(!ProcessState::Runnable.is_terminal());

    let third = kernel.spawn_root(spec(3)).expect("third spawns");
    assert!(third.get() > second.get());
    assert_eq!(kernel.next_process_id().map(ProcessId::get), Some(4));
}

#[test]
fn invalid_lifecycle_transition_does_not_mutate_state() {
    let mut kernel = RealmKernel::new(RealmLimits::default());
    let process = kernel.spawn_root(spec(1)).expect("root spawns");

    assert!(matches!(
        kernel.exit(process, 0),
        Err(KernelError::InvalidTransition { .. })
    ));
    assert_eq!(
        kernel.process(process).expect("process").state,
        ProcessState::Created
    );
    assert_eq!(kernel.dispatch_next(), None);
}

#[test]
fn child_wait_parks_wakes_and_reaps_only_the_direct_child() {
    let mut kernel = RealmKernel::new(RealmLimits::default());
    let parent = running_root(&mut kernel, 1);
    let child = kernel
        .spawn_child(parent, spec(2), &[])
        .expect("child spawns");
    let unrelated = kernel.spawn_root(spec(3)).expect("other root spawns");
    kernel.admit_process(child).expect("child admits");
    kernel.admit_process(unrelated).expect("other root admits");

    assert_eq!(
        kernel.wait_child(parent, unrelated),
        Err(KernelError::NotChild {
            parent,
            child: unrelated,
        })
    );
    assert_eq!(kernel.wait_child(parent, child), Ok(WaitResult::Pending));
    assert_eq!(kernel.dispatch_next(), Some(child));
    kernel.exit(child, 23).expect("child exits");
    assert_eq!(kernel.dispatch_next(), Some(unrelated));
    kernel.yield_now(unrelated).expect("other root yields");
    assert_eq!(kernel.dispatch_next(), Some(parent));
    assert_eq!(
        kernel.wait_child(parent, child),
        Ok(WaitResult::Reaped(Termination::Exited(23)))
    );
    assert!(matches!(
        kernel.process(child),
        Err(KernelError::ProcessNotFound(_))
    ));
}

#[test]
fn parent_termination_reparents_children_and_closes_its_descriptors() {
    let mut kernel = RealmKernel::new(RealmLimits::default());
    let parent = running_root(&mut kernel, 1);
    let ends = kernel.create_pipe(parent, 8).expect("pipe creates");
    let child = kernel
        .spawn_child(
            parent,
            spec(2),
            &[DescriptorBinding {
                source: ends.read,
                target: Descriptor::stdin(),
            }],
        )
        .expect("child spawns");
    let pipe = pipe_id(&kernel, parent, ends.read);

    kernel
        .signal(parent, Signal::Kill)
        .expect("parent terminates");

    assert_eq!(kernel.process(child).expect("child remains").parent, None);
    assert_eq!(kernel.pipe(pipe).expect("pipe remains").readers, 1);
    assert_eq!(kernel.pipe(pipe).expect("pipe remains").writers, 0);
    assert_eq!(
        kernel.reap_root(parent),
        Ok(Termination::Signaled(Signal::Kill))
    );
}

#[test]
fn process_quota_counts_zombies_until_reaped() {
    let limits = RealmLimits {
        max_processes: 1,
        ..RealmLimits::default()
    };
    let mut kernel = RealmKernel::new(limits);
    let process = running_root(&mut kernel, 1);
    kernel.exit(process, 0).expect("root exits");

    assert_eq!(
        kernel.spawn_root(spec(2)),
        Err(KernelError::QuotaExceeded(Quota::Processes))
    );
    kernel.reap_root(process).expect("root reaps");
    assert!(kernel.spawn_root(spec(2)).is_ok());
}

#[test]
fn bounded_pipe_applies_partial_write_backpressure_and_fifo_reads() {
    let mut kernel = RealmKernel::new(RealmLimits::default());
    let process = running_root(&mut kernel, 1);
    let ends = kernel.create_pipe(process, 4).expect("pipe creates");

    assert_eq!(
        kernel.write_pipe(process, ends.write, b"abcdef"),
        Ok(PipeWriteResult::Written(4))
    );
    assert_eq!(
        kernel.write_pipe(process, ends.write, b"z"),
        Ok(PipeWriteResult::WouldBlock)
    );
    assert_eq!(
        kernel.read_pipe(process, ends.read, 2),
        Ok(PipeReadResult::Data(b"ab".to_vec()))
    );
    assert_eq!(
        kernel.write_pipe(process, ends.write, b"xy"),
        Ok(PipeWriteResult::Written(2))
    );
    assert_eq!(
        kernel.read_pipe(process, ends.read, 8),
        Ok(PipeReadResult::Data(b"cdxy".to_vec()))
    );
}

#[test]
fn eof_is_visible_only_after_the_last_writer_and_buffer_drain() {
    let mut kernel = RealmKernel::new(RealmLimits::default());
    let parent = running_root(&mut kernel, 1);
    let ends = kernel.create_pipe(parent, 8).expect("pipe creates");
    let child = kernel
        .spawn_child(
            parent,
            spec(2),
            &[DescriptorBinding {
                source: ends.write,
                target: Descriptor::stdout(),
            }],
        )
        .expect("child spawns");
    kernel
        .write_pipe(parent, ends.write, b"data")
        .expect("write succeeds");
    kernel
        .close_descriptor(parent, ends.write)
        .expect("parent writer closes");
    assert_eq!(
        kernel.read_pipe(parent, ends.read, 8),
        Ok(PipeReadResult::Data(b"data".to_vec()))
    );
    assert_eq!(
        kernel.read_pipe(parent, ends.read, 8),
        Ok(PipeReadResult::WouldBlock)
    );

    kernel.admit_process(child).expect("child admits");
    kernel.yield_now(parent).expect("parent yields");
    assert_eq!(kernel.dispatch_next(), Some(child));
    kernel
        .exit(child, 0)
        .expect("child closes inherited writer");
    assert_eq!(kernel.dispatch_next(), Some(parent));
    assert_eq!(
        kernel.read_pipe(parent, ends.read, 8),
        Ok(PipeReadResult::Eof)
    );
}

#[test]
fn final_reader_close_yields_broken_pipe_and_wakes_a_writer() {
    let mut kernel = RealmKernel::new(RealmLimits::default());
    let parent = running_root(&mut kernel, 1);
    let ends = kernel.create_pipe(parent, 1).expect("pipe creates");
    let child = kernel
        .spawn_child(
            parent,
            spec(2),
            &[DescriptorBinding {
                source: ends.write,
                target: Descriptor::stdout(),
            }],
        )
        .expect("child spawns");
    kernel.admit_process(child).expect("child admits");
    kernel.yield_now(parent).expect("parent yields");
    assert_eq!(kernel.dispatch_next(), Some(child));
    assert_eq!(
        kernel.write_pipe(child, Descriptor::stdout(), b"x"),
        Ok(PipeWriteResult::Written(1))
    );
    assert_eq!(
        kernel.park_pipe_write(child, Descriptor::stdout()),
        Ok(ParkResult::Parked)
    );
    assert_eq!(kernel.dispatch_next(), Some(parent));
    kernel
        .close_descriptor(parent, ends.read)
        .expect("last reader closes");
    kernel.yield_now(parent).expect("parent yields");
    assert_eq!(kernel.dispatch_next(), Some(child));
    assert_eq!(
        kernel.write_pipe(child, Descriptor::stdout(), b"y"),
        Ok(PipeWriteResult::BrokenPipe)
    );
}

#[test]
fn pipe_reader_frees_capacity_and_wakes_a_parked_writer() {
    let mut kernel = RealmKernel::new(RealmLimits::default());
    let writer = running_root(&mut kernel, 1);
    let ends = kernel.create_pipe(writer, 1).expect("pipe creates");
    let reader = kernel
        .spawn_child(
            writer,
            spec(2),
            &[DescriptorBinding {
                source: ends.read,
                target: Descriptor::stdin(),
            }],
        )
        .expect("reader spawns");
    kernel.admit_process(reader).expect("reader admits");
    kernel
        .close_descriptor(writer, ends.read)
        .expect("writer drops its unused reader");
    assert_eq!(
        kernel.write_pipe(writer, ends.write, b"x"),
        Ok(PipeWriteResult::Written(1))
    );
    assert_eq!(
        kernel.park_pipe_write(writer, ends.write),
        Ok(ParkResult::Parked)
    );
    assert_eq!(kernel.dispatch_next(), Some(reader));
    assert_eq!(
        kernel.read_pipe(reader, Descriptor::stdin(), 1),
        Ok(PipeReadResult::Data(b"x".to_vec()))
    );
    kernel.yield_now(reader).expect("reader yields");
    assert_eq!(kernel.dispatch_next(), Some(writer));
    assert_eq!(
        kernel.write_pipe(writer, ends.write, b"y"),
        Ok(PipeWriteResult::Written(1))
    );
}

#[test]
fn pipe_read_waiter_wakes_for_data_and_for_eof() {
    let mut kernel = RealmKernel::new(RealmLimits::default());
    let reader = running_root(&mut kernel, 1);
    let ends = kernel.create_pipe(reader, 8).expect("pipe creates");
    let writer = kernel
        .spawn_child(
            reader,
            spec(2),
            &[DescriptorBinding {
                source: ends.write,
                target: Descriptor::stdout(),
            }],
        )
        .expect("writer spawns");
    kernel.admit_process(writer).expect("writer admits");
    kernel
        .close_descriptor(reader, ends.write)
        .expect("reader drops its unused writer");
    assert_eq!(
        kernel.park_pipe_read(reader, ends.read),
        Ok(ParkResult::Parked)
    );
    assert_eq!(kernel.dispatch_next(), Some(writer));
    kernel
        .write_pipe(writer, Descriptor::stdout(), b"x")
        .expect("writer writes");
    kernel.yield_now(writer).expect("writer yields");
    assert_eq!(kernel.dispatch_next(), Some(reader));
    assert_eq!(
        kernel.read_pipe(reader, ends.read, 1),
        Ok(PipeReadResult::Data(b"x".to_vec()))
    );
    assert_eq!(
        kernel.park_pipe_read(reader, ends.read),
        Ok(ParkResult::Parked)
    );
    assert_eq!(kernel.dispatch_next(), Some(writer));
    kernel.exit(writer, 0).expect("writer exits");
    assert_eq!(kernel.dispatch_next(), Some(reader));
    assert_eq!(
        kernel.read_pipe(reader, ends.read, 1),
        Ok(PipeReadResult::Eof)
    );
}

#[test]
fn invalid_inheritance_is_atomic() {
    let mut kernel = RealmKernel::new(RealmLimits::default());
    let parent = running_root(&mut kernel, 1);
    let ends = kernel.create_pipe(parent, 8).expect("pipe creates");
    let pipe = pipe_id(&kernel, parent, ends.read);
    let before = kernel.pipe(pipe).expect("pipe snapshot");
    let process_count = kernel.process_count();

    let error = kernel
        .spawn_child(
            parent,
            spec(2),
            &[
                DescriptorBinding {
                    source: ends.read,
                    target: Descriptor::stdin(),
                },
                DescriptorBinding {
                    source: ends.write,
                    target: Descriptor::stdin(),
                },
            ],
        )
        .expect_err("duplicate child target fails");

    assert_eq!(
        error,
        KernelError::DuplicateDescriptorTarget(Descriptor::stdin())
    );
    assert_eq!(kernel.process_count(), process_count);
    assert_eq!(kernel.pipe(pipe), Ok(before));
}

#[test]
fn pipe_quota_failure_is_atomic_and_capacity_is_released_on_last_close() {
    let limits = RealmLimits {
        max_pipes: 1,
        max_pipe_bytes: 8,
        max_total_pipe_bytes: 8,
        ..RealmLimits::default()
    };
    let mut kernel = RealmKernel::new(limits);
    let process = running_root(&mut kernel, 1);
    let ends = kernel.create_pipe(process, 8).expect("pipe creates");
    let descriptor_count = kernel.process(process).expect("process").descriptors;

    assert_eq!(
        kernel.create_pipe(process, 1),
        Err(KernelError::QuotaExceeded(Quota::Pipes))
    );
    assert_eq!(
        kernel.process(process).expect("process").descriptors,
        descriptor_count
    );
    assert_eq!(kernel.reserved_pipe_bytes(), 8);

    kernel
        .close_descriptor(process, ends.read)
        .expect("reader closes");
    assert_eq!(kernel.pipe_count(), 1);
    kernel
        .close_descriptor(process, ends.write)
        .expect("writer closes");
    assert_eq!(kernel.pipe_count(), 0);
    assert_eq!(kernel.reserved_pipe_bytes(), 0);
    assert!(kernel.create_pipe(process, 8).is_ok());
}

#[test]
fn descriptor_quota_failure_does_not_allocate_a_pipe() {
    let limits = RealmLimits {
        max_descriptors_per_process: 1,
        ..RealmLimits::default()
    };
    let mut kernel = RealmKernel::new(limits);
    let process = running_root(&mut kernel, 1);

    assert_eq!(
        kernel.create_pipe(process, 8),
        Err(KernelError::QuotaExceeded(Quota::Descriptors))
    );
    assert_eq!(kernel.pipe_count(), 0);
    assert_eq!(kernel.reserved_pipe_bytes(), 0);
}

#[test]
fn malformed_working_directories_fail_before_pid_allocation() {
    let mut kernel = RealmKernel::new(RealmLimits::default());
    for cwd in ["relative", "/workspace/../secret", "/workspace//project"] {
        assert_eq!(
            kernel.spawn_root(ProcessSpec::new(image(1), cwd)),
            Err(KernelError::InvalidCwd)
        );
    }
    let process = kernel.spawn_root(spec(2)).expect("valid root spawns");
    assert_eq!(process.get(), 1);
}

#[test]
fn identifier_exhaustion_never_wraps_or_partially_allocates() {
    let mut kernel = RealmKernel::new(RealmLimits::default());
    kernel.next_process_id = u64::MAX;
    let final_process = kernel.spawn_root(spec(1)).expect("last PID allocates");
    assert_eq!(final_process.get(), u64::MAX);
    assert_eq!(
        kernel.spawn_root(spec(2)),
        Err(KernelError::IdentifierExhausted)
    );
    assert_eq!(kernel.next_process_id(), None);
    assert_eq!(kernel.process_count(), 1);

    kernel.admit_process(final_process).expect("last process admits");
    assert_eq!(kernel.dispatch_next(), Some(final_process));
    kernel.next_pipe_id = 0;
    assert_eq!(
        kernel.create_pipe(final_process, 8),
        Err(KernelError::IdentifierExhausted)
    );
    assert_eq!(kernel.pipe_count(), 0);
    assert_eq!(
        kernel
            .process(final_process)
            .expect("process remains")
            .descriptors,
        0
    );
}

#[test]
fn refused_requests_change_nothing() {
    let mut kernel = RealmKernel::new(RealmLimits::default());
    let process = running_root(&mut kernel, 1);
    let ends = kernel.create_pipe(process, 4).expect("pipe creates");
    let snapshot = kernel.process(process).expect("process");
    let unknown = ProcessId::new(99);
    assert_eq!(kernel.yield_now(unknown), Err(KernelError::ProcessNotFound(unknown)));
    assert_eq!(kernel.reap_root(process), Err(KernelError::ProcessStillLive(process)));
    assert_eq!(kernel.create_pipe(process, 0), Err(KernelError::InvalidPipeCapacity));
    let absent = Descriptor::new(77);
    assert_eq!(
        kernel.close_descriptor(process, absent),
        Err(KernelError::DescriptorNotFound {
            process,
            descriptor: absent
        })
    );
    assert_eq!(
        kernel.read_pipe(process, ends.write, 1),
        Err(KernelError::WrongDescriptorKind {
            process,
            descriptor: ends.write
        })
    );
    assert_eq!(
        kernel.pipe(PipeId::new(50)),
        Err(KernelError::PipeNotFound(PipeId::new(50)))
    );
    assert_eq!(
        kernel.spawn_child(
            process,
            spec(2),
            &[DescriptorBinding {
                source: ends.read,
                target: Descriptor::new(-1),
            }]
        ),
        Err(KernelError::InvalidDescriptorTarget(Descriptor::new(-1)))
    );
    assert_eq!(kernel.process(process), Ok(snapshot));
    assert_eq!(kernel.process_count(), 1);
}

#[test]
fn children_are_reaped_by_their_parent() {
    let mut kernel = RealmKernel::new(RealmLimits::default());
    let parent = running_root(&mut kernel, 1);
    let child = kernel.spawn_child(parent, spec(2), &[]).expect("child spawns");
    kernel.signal(child, Signal::Terminate).expect("child ends");
    assert_eq!(kernel.reap_root(child), Err(KernelError::ProcessHasParent(child)));
    assert_eq!(
        kernel.wait_child(parent, child),
        Ok(WaitResult::Reaped(Termination::Signaled(Signal::Terminate)))
    );
}

#[test]
fn messages_describe_refusals() {
    assert_eq!(
        KernelError::ProcessNotFound(ProcessId::new(7)).message(),
        "process 7 does not exist"
    );
    assert_eq!(
        KernelError::QuotaExceeded(Quota::TotalPipeBytes).message(),
        "realm TotalPipeBytes quota exceeded"
    );
    let mut kernel = RealmKernel::new(RealmLimits::default());
    let process = kernel.spawn_root(spec(1)).expect("root spawns");
    let error = kernel.exit(process, -4).expect_err("not running");
    assert_eq!(error.message(), "process 1 cannot perform Exit while Created");
    assert_eq!(
        KernelError::DuplicateDescriptorTarget(Descriptor::new(-3)).message(),
        "child descriptor -3 is mapped more than once"
    );
}

#[test]
fn the_queue_is_served_in_turn() {
    let mut kernel = RealmKernel::new(RealmLimits::default());
    let first = kernel.spawn_root(spec(1)).expect("first spawns");
    let second = kernel.spawn_root(spec(2)).expect("second spawns");
    let third = kernel.spawn_root(spec(3)).expect("third spawns");
    for process in [third, first, second] {
        kernel.admit_process(process).expect("admits");
    }
    kernel.signal(first, Signal::Kill).expect("signals");
    assert_eq!(kernel.dispatch_next(), Some(third));
    kernel.yield_now(third).expect("yields");
    assert_eq!(kernel.dispatch_next(), Some(second));
    kernel.yield_now(second).expect("yields");
    assert_eq!(kernel.dispatch_next(), Some(third));
    kernel.exit(third, 3).expect("exits");
    assert_eq!(kernel.dispatch_next(), Some(second));
    kernel.exit(second, 2).expect("exits");
    assert_eq!(kernel.dispatch_next(), None);
    assert_eq!(kernel.reap_root(third), Ok(Termination::Exited(3)));
    assert_eq!(
        kernel.reap_root(third),
        Err(KernelError::ProcessNotFound(third))
    );
}
